//! Vote latency: how far behind the slot it lands in a vote of ours points.
use vstd::prelude::*;
use crate::text::same_text;

verus! {

/// An instruction of a JSON-parsed transaction, as far as the search reads it:
/// the program that the parser named, if it named one, and the `slot` of each
/// entry of `parsed.info.towerSync.lockouts`, if that is an array.
#[derive(Debug)]
pub struct InstructionView {
    pub program: Option<String>,
    pub lockout_slots: Option<Vec<Option<u64>>>,
}

/// A JSON-parsed transaction: its account keys and its instructions.
#[derive(Debug)]
pub struct TransactionView {
    pub account_keys: Vec<String>,
    pub instructions: Vec<InstructionView>,
}

/// The highest of the slots that are present, or 0.
pub open spec fn highest_slot(slots: Seq<Option<u64>>) -> u64
    decreases slots.len(),
{
    if slots.len() == 0 {
        0
    } else {
        let before = highest_slot(slots.drop_last());
        match slots.last() {
            Some(s) => if s > before { s } else { before },
            None => before,
        }
    }
}

/// `a - b`, or 0 where `b` is larger.
pub open spec fn slots_behind(a: u64, b: u64) -> u64 {
    if a >= b {
        (a - b) as u64
    } else {
        0
    }
}

/// Whether one of `keys` is `key`.
pub open spec fn keys_contain(keys: Seq<String>, key: Seq<char>) -> bool {
    exists|i: int| 0 <= i < keys.len() && #[trigger] keys[i]@ == key
}

/// The latency that a vote instruction reports: `current_slot` less the
/// highest slot in its tower's lockouts, where that slot is above 0.
pub open spec fn instruction_latency(ins: InstructionView, current_slot: u64) -> Option<u64> {
    match ins.program {
        Some(program) => if program@ == "vote"@ {
            match ins.lockout_slots {
                Some(slots) => if highest_slot(slots@) > 0 {
                    Some(slots_behind(current_slot, highest_slot(slots@)))
                } else {
                    None
                },
                None => None,
            }
        } else {
            None
        },
        None => None,
    }
}

/// The latency of the first instruction that reports one.
pub open spec fn first_instruction_latency(ins: Seq<InstructionView>, current_slot: u64) -> Option<u64>
    decreases ins.len(),
{
    if ins.len() == 0 {
        None
    } else {
        match instruction_latency(ins[0], current_slot) {
            Some(l) => Some(l),
            None => first_instruction_latency(ins.drop_first(), current_slot),
        }
    }
}

/// The latency that a transaction reports: only a parsed transaction that
/// names both our identity and our vote account reports one.
pub open spec fn transaction_latency(
    tx: Option<TransactionView>,
    identity: Seq<char>,
    vote_account: Seq<char>,
    current_slot: u64,
) -> Option<u64> {
    match tx {
        Some(t) => if keys_contain(t.account_keys@, identity) && keys_contain(t.account_keys@, vote_account) {
            first_instruction_latency(t.instructions@, current_slot)
        } else {
            None
        },
        None => None,
    }
}

/// The latency of the first transaction of the block that reports one.
pub open spec fn block_latency(
    txs: Seq<Option<TransactionView>>,
    identity: Seq<char>,
    vote_account: Seq<char>,
    current_slot: u64,
) -> Option<u64>
    decreases txs.len(),
{
    if txs.len() == 0 {
        None
    } else {
        match transaction_latency(txs[0], identity, vote_account, current_slot) {
            Some(l) => Some(l),
            None => block_latency(txs.drop_first(), identity, vote_account, current_slot),
        }
    }
}

/// The highest slot of a vote is at least every slot present anywhere in
/// the list, and is one of them (0 where none above 0 is present).
pub proof fn lemma_highest_slot_is_greatest(slots: Seq<Option<u64>>)
    ensures
        forall|k: int| 0 <= k < slots.len() ==> (#[trigger] slots[k] matches Some(s) ==> s <= highest_slot(slots)),
        highest_slot(slots) > 0 ==> exists|k: int| 0 <= k < slots.len() && #[trigger] slots[k] == Some(highest_slot(slots)),
    decreases slots.len(),
{
    if slots.len() > 0 {
        let before = slots.drop_last();
        lemma_highest_slot_is_greatest(before);
        assert forall|k: int| 0 <= k < slots.len() implies (#[trigger] slots[k] matches Some(s) ==> s <= highest_slot(slots)) by {
            if k < before.len() {
                assert(slots[k] == before[k]);
            }
        }
        if highest_slot(slots) > 0 {
            if highest_slot(slots) == highest_slot(before) {
                let k = choose|k: int| 0 <= k < before.len() && #[trigger] before[k] == Some(highest_slot(before));
                assert(slots[k] == before[k]);
            } else {
                assert(slots[slots.len() - 1] == slots.last());
            }
        }
    }
}

/// The highest slot present in `slots`, or 0.
pub fn highest_lockout_slot(slots: &Vec<Option<u64>>) -> (highest: u64)
    ensures
        highest == highest_slot(slots@),
        forall|k: int| 0 <= k < slots@.len() ==> (#[trigger] slots@[k] matches Some(s) ==> s <= highest),
        highest > 0 ==> exists|k: int| 0 <= k < slots@.len() && #[trigger] slots@[k] == Some(highest),
{
    proof {
        lemma_highest_slot_is_greatest(slots@);
    }
    let mut highest: u64 = 0;
    let mut i: usize = 0;
    assert(slots@.take(0) =~= Seq::<Option<u64>>::empty());
    while i < slots.len()
        invariant
            0 <= i <= slots.len(),
            highest == highest_slot(slots@.take(i as int)),
        decreases slots.len() - i,
    {
        assert(slots@.take(i + 1).drop_last() =~= slots@.take(i as int));
        if let Some(s) = slots[i] {
            if s > highest {
                highest = s;
            }
        }
        i = i + 1;
    }
    assert(slots@.take(slots.len() as int) =~= slots@);
    highest
}

/// The latency that one instruction reports, if it is a vote.
pub fn instruction_vote_latency(ins: &InstructionView, current_slot: u64) -> (latency: Option<u64>)
    ensures
        latency == instruction_latency(*ins, current_slot),
        latency matches Some(l) ==> l <= current_slot,
{
    match &ins.program {
        Some(program) => {
            if !same_text(program.as_str(), "vote") {
                return None;
            }
        },
        None => return None,
    }
    match &ins.lockout_slots {
        Some(slots) => {
            let highest = highest_lockout_slot(slots);
            if highest > 0 {
                Some(current_slot.saturating_sub(highest))
            } else {
                None
            }
        },
        None => None,
    }
}

/// Whether one of `keys` is `key`.
pub fn contains_key(keys: &Vec<String>, key: &String) -> (found: bool)
    ensures
        found == keys_contain(keys@, key@),
{
    let mut i: usize = 0;
    while i < keys.len()
        invariant
            0 <= i <= keys.len(),
            forall|j: int| 0 <= j < i ==> keys@[j]@ != key@,
        decreases keys.len() - i,
    {
        if keys[i] == *key {
            assert(keys@[i as int]@ == key@);
            return true;
        }
        i = i + 1;
    }
    false
}

/// The latency that a transaction reports.
pub fn transaction_vote_latency(
    tx: &Option<TransactionView>,
    identity: &String,
    vote_account: &String,
    current_slot: u64,
) -> (latency: Option<u64>)
    ensures
        latency == transaction_latency(*tx, identity@, vote_account@, current_slot),
        latency matches Some(l) ==> l <= current_slot,
{
    let t = match tx {
        Some(t) => t,
        None => return None,
    };
    if !contains_key(&t.account_keys, identity) {
        return None;
    }
    if !contains_key(&t.account_keys, vote_account) {
        return None;
    }
    let ins = &t.instructions;
    let mut i: usize = 0;
    assert(ins@.skip(0) =~= ins@);
    while i < ins.len()
        invariant
            0 <= i <= ins.len(),
            transaction_latency(*tx, identity@, vote_account@, current_slot)
                == first_instruction_latency(ins@, current_slot),
            first_instruction_latency(ins@, current_slot) == first_instruction_latency(ins@.skip(i as int), current_slot),
        decreases ins.len() - i,
    {
        assert(ins@.skip(i as int)[0] == ins@[i as int]);
        assert(ins@.skip(i as int).drop_first() =~= ins@.skip(i + 1));
        let found = instruction_vote_latency(&ins[i], current_slot);
        if found.is_some() {
            assert(first_instruction_latency(ins@.skip(i as int), current_slot) == found);
            return found;
        }
        i = i + 1;
    }
    assert(ins@.skip(i as int).len() == 0);
    None
}

/// Looks through the transactions of a block (`None` where the block came
/// without them; a `None` entry for a transaction that is not JSON-parsed)
/// for a vote of ours, and returns how many slots behind `current_slot` the
/// highest slot of its tower is.
pub fn vote_latency_in_block(
    current_slot: u64,
    identity: &String,
    vote_account: &String,
    transactions: &Option<Vec<Option<TransactionView>>>,
) -> (latency: Option<u64>)
    ensures
        latency == match transactions {
            Some(txs) => block_latency(txs@, identity@, vote_account@, current_slot),
            None => None,
        },
        latency matches Some(l) ==> l <= current_slot,
{
    let txs = match transactions {
        Some(txs) => txs,
        None => return None,
    };
    let mut i: usize = 0;
    assert(txs@.skip(0) =~= txs@);
    while i < txs.len()
        invariant
            0 <= i <= txs.len(),
            *transactions == Some(*txs),
            block_latency(txs@, identity@, vote_account@, current_slot)
                == block_latency(txs@.skip(i as int), identity@, vote_account@, current_slot),
        decreases txs.len() - i,
    {
        assert(txs@.skip(i as int)[0] == txs@[i as int]);
        assert(txs@.skip(i as int).drop_first() =~= txs@.skip(i + 1));
        let found = transaction_vote_latency(&txs[i], identity, vote_account, current_slot);
        if found.is_some() {
            assert(block_latency(txs@.skip(i as int), identity@, vote_account@, current_slot) == found);
            return found;
        }
        i = i + 1;
    }
    assert(txs@.skip(i as int).len() == 0);
    None
}

/// A transaction that does not name both our identity and our vote account
/// never changes the latency found in a block: inserting one anywhere among
/// the transactions gives the same result.
pub proof fn lemma_unrelated_transaction_ignored(
    txs: Seq<Option<TransactionView>>,
    i: int,
    tx: Option<TransactionView>,
    identity: Seq<char>,
    vote_account: Seq<char>,
    current_slot: u64,
)
    requires
        0 <= i <= txs.len(),
        match tx {
            Some(t) => !(keys_contain(t.account_keys@, identity) && keys_contain(t.account_keys@, vote_account)),
            None => true,
        },
    ensures
        block_latency(txs.insert(i, tx), identity, vote_account, current_slot)
            == block_latency(txs, identity, vote_account, current_slot),
    decreases i,
{
    let longer = txs.insert(i, tx);
    if i == 0 {
        assert(longer[0] == tx);
        assert(longer.drop_first() =~= txs);
    } else {
        lemma_unrelated_transaction_ignored(txs.drop_first(), i - 1, tx, identity, vote_account, current_slot);
        assert(longer[0] == txs[0]);
        assert(longer.drop_first() =~= txs.drop_first().insert(i - 1, tx));
    }
}

} // verus!
