//! Our leader slots: where they are in an epoch, which comes next, and how
//! long until it.
use vstd::prelude::*;

verus! {

/// Why our leader slots could not be had.
#[derive(Clone, Copy, Debug, PartialEq, Eq)]
pub enum LeaderError {
    /// The node returned no leader schedule for the epoch.
    MissingSchedule,
}

/// The slot time assumed where no performance sample covers any slot.
pub const DEFAULT_SLOT_TIME_MS: u64 = 400;

/// The slot indices listed for `identity` (the first entry naming it), or none.
pub open spec fn schedule_slots_of(entries: Seq<(String, Vec<usize>)>, identity: Seq<char>) -> Seq<usize>
    decreases entries.len(),
{
    if entries.len() == 0 {
        Seq::empty()
    } else if entries[0].0@ == identity {
        entries[0].1@
    } else {
        schedule_slots_of(entries.drop_first(), identity)
    }
}

/// Slot indices of an epoch made absolute by the epoch's first slot.
pub open spec fn absolute_slots(indices: Seq<usize>, first_slot: u64) -> Seq<u64> {
    indices.map_values(|i: usize| (i + first_slot) as u64)
}

/// Whether every index, added to `first_slot`, stays a valid slot.
pub open spec fn slots_fit(indices: Seq<usize>, first_slot: u64) -> bool {
    forall|k: int| 0 <= k < indices.len() ==> #[trigger] indices[k] + first_slot <= u64::MAX
}

/// Our leader slots in an epoch that starts at `first_slot`, from the
/// leader schedule (each validator's identity with its slot indices within
/// the epoch), or an error where the node gave no schedule.
pub fn leader_slots_for(
    identity: &String,
    first_slot: u64,
    schedule: &Option<Vec<(String, Vec<usize>)>>,
) -> (res: Result<Vec<u64>, LeaderError>)
    requires
        schedule matches Some(entries) ==> slots_fit(schedule_slots_of(entries@, identity@), first_slot),
    ensures
        match schedule {
            None => res == Err::<Vec<u64>, LeaderError>(LeaderError::MissingSchedule),
            Some(entries) => res is Ok
                && res->Ok_0@ == absolute_slots(schedule_slots_of(entries@, identity@), first_slot),
        },
{
    let entries = match schedule {
        Some(entries) => entries,
        None => return Err(LeaderError::MissingSchedule),
    };
    let ghost all = entries@;
    let mut i: usize = 0;
    assert(all.skip(0) =~= all);
    while i < entries.len()
        invariant
            all == entries@,
            *schedule == Some(*entries),
            slots_fit(schedule_slots_of(all, identity@), first_slot),
            0 <= i <= all.len(),
            schedule_slots_of(all, identity@) == schedule_slots_of(all.skip(i as int), identity@),
        decreases all.len() - i,
    {
        assert(all.skip(i as int)[0] == all[i as int]);
        assert(all.skip(i as int).drop_first() =~= all.skip(i + 1));
        if entries[i].0 == *identity {
            let indices = &entries[i].1;
            assert(schedule_slots_of(all.skip(i as int), identity@) == indices@);
            let mut out: Vec<u64> = Vec::new();
            let mut j: usize = 0;
            while j < indices.len()
                invariant
                    0 <= j <= indices.len(),
                    slots_fit(indices@, first_slot),
                    out@ =~= absolute_slots(indices@.take(j as int), first_slot),
                decreases indices.len() - j,
            {
                assert(indices@[j as int] + first_slot <= u64::MAX);
                out.push(indices[j] as u64 + first_slot);
                j = j + 1;
            }
            assert(indices@.take(indices.len() as int) =~= indices@);
            return Ok(out);
        }
        i = i + 1;
    }
    Ok(Vec::new())
}

/// Whether `slot` is the first of `slots` after `current`.
pub open spec fn is_next_slot(slots: Seq<u64>, current: u64, slot: u64) -> bool {
    &&& slots.contains(slot)
    &&& slot > current
    &&& forall|k: int| 0 <= k < slots.len() && slots[k] > current ==> slot <= #[trigger] slots[k]
}

/// The first of our leader slots after `current_slot`, if any.
pub fn next_leader_slot(current_slot: u64, leader_slots: &Vec<u64>) -> (next: Option<u64>)
    ensures
        next is None <==> forall|k: int| 0 <= k < leader_slots@.len() ==> leader_slots@[k] <= current_slot,
        next matches Some(s) ==> is_next_slot(leader_slots@, current_slot, s),
{
    let mut best: Option<u64> = None;
    let mut i: usize = 0;
    while i < leader_slots.len()
        invariant
            0 <= i <= leader_slots.len(),
            best is None ==> forall|k: int| 0 <= k < i ==> leader_slots@[k] <= current_slot,
            best matches Some(s) ==> {
                &&& leader_slots@.take(i as int).contains(s)
                &&& s > current_slot
                &&& forall|k: int| 0 <= k < i && leader_slots@[k] > current_slot ==> s <= leader_slots@[k]
            },
        decreases leader_slots.len() - i,
    {
        let slot = leader_slots[i];
        if slot > current_slot {
            match best {
                None => {
                    best = Some(slot);
                },
                Some(b) => {
                    if slot < b {
                        best = Some(slot);
                    }
                },
            }
        }
        proof {
            if let Some(s) = best {
                let p = leader_slots@.take(i + 1);
                if s == slot {
                    assert(p[i as int] == slot);
                } else {
                    let w = choose|w: int| 0 <= w < i && leader_slots@.take(i as int)[w] == s;
                    assert(p[w] == s);
                }
            }
        }
        i = i + 1;
    }
    proof {
        if let Some(s) = best {
            assert(leader_slots@.take(i as int) =~= leader_slots@);
        }
    }
    best
}

/// The sum of `s`.
pub open spec fn nat_sum(s: Seq<u64>) -> int
    decreases s.len(),
{
    if s.len() == 0 {
        0
    } else {
        nat_sum(s.drop_last()) + s.last()
    }
}

/// `x`, or `u64::MAX` where it is larger.
pub open spec fn cap(x: int) -> int {
    if x > u64::MAX { u64::MAX as int } else { x }
}

/// The average slot time over the samples, in milliseconds, rounded down:
/// the seconds the samples cover, times 1000, over the slots they cover,
/// each total capped at `u64::MAX`; 400 where they cover no slot.
pub open spec fn average_slot_time_spec(samples: Seq<(u64, u16)>) -> u64 {
    let slots = cap(nat_sum(samples.map_values(|s: (u64, u16)| s.0)));
    let secs = cap(nat_sum(samples.map_values(|s: (u64, u16)| s.1 as u64)));
    if slots == 0 {
        DEFAULT_SLOT_TIME_MS
    } else {
        (cap(secs * 1000) / slots) as u64
    }
}

proof fn lemma_nat_sum_nonneg(s: Seq<u64>)
    ensures
        nat_sum(s) >= 0,
    decreases s.len(),
{
    if s.len() > 0 {
        lemma_nat_sum_nonneg(s.drop_last());
    }
}

/// The average slot time from recent performance samples, each given as
/// (slots, seconds).
pub fn average_slot_time_ms(samples: &Vec<(u64, u16)>) -> (ms: u64)
    ensures
        ms == average_slot_time_spec(samples@),
{
    let ghost all = samples@;
    let ghost slot_seq = all.map_values(|s: (u64, u16)| s.0);
    let ghost sec_seq = all.map_values(|s: (u64, u16)| s.1 as u64);
    let mut total_slots: u64 = 0;
    let mut total_secs: u64 = 0;
    let mut i: usize = 0;
    assert(slot_seq.take(0) =~= Seq::<u64>::empty());
    assert(sec_seq.take(0) =~= Seq::<u64>::empty());
    while i < samples.len()
        invariant
            all == samples@,
            slot_seq == all.map_values(|s: (u64, u16)| s.0),
            sec_seq == all.map_values(|s: (u64, u16)| s.1 as u64),
            0 <= i <= all.len(),
            total_slots == cap(nat_sum(slot_seq.take(i as int))),
            total_secs == cap(nat_sum(sec_seq.take(i as int))),
        decreases all.len() - i,
    {
        proof {
            assert(slot_seq.take(i + 1).drop_last() =~= slot_seq.take(i as int));
            assert(sec_seq.take(i + 1).drop_last() =~= sec_seq.take(i as int));
            lemma_nat_sum_nonneg(slot_seq.take(i as int));
            lemma_nat_sum_nonneg(sec_seq.take(i as int));
        }
        let sample = samples[i];
        total_slots = total_slots.saturating_add(sample.0);
        total_secs = total_secs.saturating_add(sample.1 as u64);
        i = i + 1;
    }
    assert(slot_seq.take(all.len() as int) =~= slot_seq);
    assert(sec_seq.take(all.len() as int) =~= sec_seq);
    let millis = match total_secs.checked_mul(1000) {
        Some(v) => v,
        None => u64::MAX,
    };
    match millis.checked_div(total_slots) {
        Some(v) => v,
        None => DEFAULT_SLOT_TIME_MS,
    }
}

/// `a - b`, or 0 where `b` is larger.
pub open spec fn sat_sub(a: u64, b: u64) -> int {
    if a >= b { a - b } else { 0 }
}

/// The milliseconds until `next_slot` from `current_slot` at `slot_time_ms`
/// per slot, as an `i64` (two's complement of the `u64` product).
pub fn ms_until_slot(next_slot: u64, current_slot: u64, slot_time_ms: u64) -> (ms: i64)
    requires
        sat_sub(next_slot, current_slot) * slot_time_ms <= u64::MAX,
    ensures
        ms == (sat_sub(next_slot, current_slot) * slot_time_ms) as i64,
        next_slot >= current_slot ==> ms == ((next_slot - current_slot) * slot_time_ms) as i64,
        next_slot < current_slot ==> ms == 0,
{
    let slots = next_slot.saturating_sub(current_slot);
    (slots * slot_time_ms) as i64
}

/// What the time to the next leader slot reads where no leader slot lies ahead.
pub const NO_NEXT_LEADER_SLOT: i64 = -1;

/// The milliseconds until our next leader slot `next_slot` (as found by
/// `next_leader_slot`), at the average slot time of the performance samples;
/// -1 where no leader slot lies ahead.
pub fn ms_to_next_slot(current_slot: u64, next_slot: Option<u64>, samples: &Vec<(u64, u16)>) -> (ms: i64)
    requires
        next_slot matches Some(s) ==> sat_sub(s, current_slot) * average_slot_time_spec(samples@) <= u64::MAX,
    ensures
        next_slot is None ==> ms == NO_NEXT_LEADER_SLOT,
        next_slot matches Some(s) ==> ms == (sat_sub(s, current_slot) * average_slot_time_spec(samples@)) as i64,
        next_slot matches Some(s) ==> (s >= current_slot
            ==> ms == ((s - current_slot) * average_slot_time_spec(samples@)) as i64),
        next_slot matches Some(s) ==> (s < current_slot ==> ms == 0),
{
    match next_slot {
        None => NO_NEXT_LEADER_SLOT,
        Some(s) => {
            let slot_time = average_slot_time_ms(samples);
            ms_until_slot(s, current_slot, slot_time)
        },
    }
}

/// The time to a slot ahead is the whole distance to it times the slot time:
/// one slot further adds exactly one slot time, however far the slot is; a
/// slot behind is no time away.
pub proof fn lemma_time_grows_with_distance(next: u64, current: u64, slot_time: u64)
    ensures
        next >= current ==> sat_sub(next, current) == next - current,
        next >= current ==> sat_sub(next, current) * slot_time == (next - current) * slot_time,
        next < current ==> sat_sub(next, current) * slot_time == 0,
        next >= current && next < u64::MAX ==> sat_sub((next + 1) as u64, current) * slot_time
            == sat_sub(next, current) * slot_time + slot_time,
{
    if next >= current && next < u64::MAX {
        let d = next - current;
        assert((d + 1) * slot_time == d * slot_time + slot_time) by (nonlinear_arith);
    }
}

/// At most one slot is the next one after `current`.
pub proof fn lemma_next_slot_unique(slots: Seq<u64>, current: u64, s: u64, t: u64)
    requires
        is_next_slot(slots, current, s),
        is_next_slot(slots, current, t),
    ensures
        s == t,
{
    let i = choose|i: int| 0 <= i < slots.len() && slots[i] == s;
    let j = choose|j: int| 0 <= j < slots.len() && slots[j] == t;
    assert(s <= slots[j]);
    assert(t <= slots[i]);
}

/// The order of our leader slots does not matter: lists with the same slots
/// (counted with repeats) have the same next slot after `current`, and have
/// none at the same time; so the time to the next slot is the same.
pub proof fn lemma_next_slot_order_free(a: Seq<u64>, b: Seq<u64>, current: u64, s: u64)
    requires
        a.to_multiset() =~= b.to_multiset(),
    ensures
        is_next_slot(a, current, s) == is_next_slot(b, current, s),
        (forall|k: int| 0 <= k < a.len() ==> a[k] <= current)
            == (forall|k: int| 0 <= k < b.len() ==> b[k] <= current),
{
    broadcast use vstd::seq_lib::group_to_multiset_ensures;
    assert forall|x: u64| a.contains(x) == b.contains(x) by {
        assert(a.contains(x) == (a.to_multiset().count(x) > 0));
        assert(b.contains(x) == (b.to_multiset().count(x) > 0));
    }
    if is_next_slot(a, current, s) {
        assert forall|k: int| 0 <= k < b.len() && b[k] > current implies s <= #[trigger] b[k] by {
            assert(b.contains(b[k]));
            assert(a.contains(b[k]));
            let w = choose|w: int| 0 <= w < a.len() && a[w] == b[k];
        }
    }
    if is_next_slot(b, current, s) {
        assert forall|k: int| 0 <= k < a.len() && a[k] > current implies s <= #[trigger] a[k] by {
            assert(a.contains(a[k]));
            assert(b.contains(a[k]));
            let w = choose|w: int| 0 <= w < b.len() && b[w] == a[k];
        }
    }
    if forall|k: int| 0 <= k < a.len() ==> a[k] <= current {
        assert forall|k: int| 0 <= k < b.len() implies b[k] <= current by {
            assert(b.contains(b[k]));
            assert(a.contains(b[k]));
            let w = choose|w: int| 0 <= w < a.len() && a[w] == b[k];
        }
    }
    if forall|k: int| 0 <= k < b.len() ==> b[k] <= current {
        assert forall|k: int| 0 <= k < a.len() implies a[k] <= current by {
            assert(a.contains(a[k]));
            assert(b.contains(a[k]));
            let w = choose|w: int| 0 <= w < b.len() && b[w] == a[k];
        }
    }
}

} // verus!
