//! Block production in the current epoch: ours, and the cluster's total.
use vstd::prelude::*;

verus! {

/// One validator's block production: its identity, its leader slots so far,
/// and the blocks it produced in them.
#[derive(Debug)]
pub struct ProductionEntry {
    pub identity: String,
    pub leader_slots: usize,
    pub blocks_produced: usize,
}

/// The blocks produced by all the validators listed.
pub open spec fn produced_total(entries: Seq<ProductionEntry>) -> int
    decreases entries.len(),
{
    if entries.len() == 0 {
        0
    } else {
        produced_total(entries.drop_last()) + entries.last().blocks_produced
    }
}

/// (leader slots, blocks produced) of the last entry for `identity`, or (0, 0).
pub open spec fn production_of(entries: Seq<ProductionEntry>, identity: Seq<char>) -> (usize, usize)
    decreases entries.len(),
{
    if entries.len() == 0 {
        (0, 0)
    } else if entries.last().identity@ == identity {
        (entries.last().leader_slots, entries.last().blocks_produced)
    } else {
        production_of(entries.drop_last(), identity)
    }
}

proof fn lemma_produced_total_monotone(entries: Seq<ProductionEntry>, i: int, j: int)
    requires
        0 <= i <= j <= entries.len(),
    ensures
        produced_total(entries.take(i)) <= produced_total(entries.take(j)),
    decreases j - i,
{
    if i < j {
        lemma_produced_total_monotone(entries, i, j - 1);
        assert(entries.take(j).drop_last() =~= entries.take(j - 1));
    }
}

/// Our leader slots and produced blocks, and the blocks produced by all the
/// validators listed.
pub fn block_production_summary(identity: &String, entries: &Vec<ProductionEntry>) -> (res: (usize, usize, u64))
    requires
        produced_total(entries@) <= u64::MAX,
    ensures
        res.0 == production_of(entries@, identity@).0,
        res.1 == production_of(entries@, identity@).1,
        res.2 == produced_total(entries@),
{
    let ghost all = entries@;
    let mut ours: (usize, usize) = (0, 0);
    let mut total: u64 = 0;
    let mut i: usize = 0;
    assert(all.take(0) =~= Seq::<ProductionEntry>::empty());
    while i < entries.len()
        invariant
            all == entries@,
            0 <= i <= all.len(),
            produced_total(all) <= u64::MAX,
            total == produced_total(all.take(i as int)),
            ours == production_of(all.take(i as int), identity@),
        decreases all.len() - i,
    {
        proof {
            assert(all.take(i + 1).drop_last() =~= all.take(i as int));
            lemma_produced_total_monotone(all, i + 1, all.len() as int);
            assert(all.take(all.len() as int) =~= all);
        }
        total = total + entries[i].blocks_produced as u64;
        if entries[i].identity == *identity {
            ours = (entries[i].leader_slots, entries[i].blocks_produced);
        }
        i = i + 1;
    }
    assert(all.take(all.len() as int) =~= all);
    (ours.0, ours.1, total)
}

} // verus!
