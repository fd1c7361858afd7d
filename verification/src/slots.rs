//! Slot-by-slot bookkeeping: which epoch we are in, our cached leader slots
//! per epoch, which slots are still to check, and the highest vote latency
//! seen since the last report.
use vstd::prelude::*;
use std::collections::HashMap;
use crate::schedule::{EpochScheduleParams, epoch_of_slot, epoch_lookup_ok};

verus! {

broadcast use vstd::std_specs::hash::group_hash_axioms;

/// Why a slot could not be checked.
#[derive(Clone, Copy, Debug, PartialEq, Eq)]
pub enum SlotError {
    /// No leader slots are cached for the current epoch.
    NoLeaderSlotsCached,
}

/// The highest of `s`, or 0.
pub open spec fn seq_max(s: Seq<u64>) -> u64
    decreases s.len(),
{
    if s.len() == 0 {
        0
    } else {
        let before = seq_max(s.drop_last());
        if s.last() > before { s.last() } else { before }
    }
}

/// The highest latency recorded is at least every latency recorded, and is
/// one of them where any was recorded.
pub proof fn lemma_max_latency_is_greatest(latencies: Seq<u64>)
    ensures
        forall|i: int| 0 <= i < latencies.len() ==> latencies[i] <= seq_max(latencies),
        latencies.len() > 0 ==> latencies.contains(seq_max(latencies)),
    decreases latencies.len(),
{
    if latencies.len() > 0 {
        let before = latencies.drop_last();
        lemma_max_latency_is_greatest(before);
        assert forall|i: int| 0 <= i < latencies.len() implies latencies[i] <= seq_max(latencies) by {
            if i < before.len() {
                assert(latencies[i] == before[i]);
            }
        }
        if latencies.last() > seq_max(before) || before.len() == 0 {
            assert(latencies[latencies.len() - 1] == latencies.last());
        } else {
            let w = choose|w: int| 0 <= w < before.len() && before[w] == seq_max(before);
            assert(latencies[w] == before[w]);
        }
    }
}

/// The state that advances with each new slot.
pub struct SlotTracker {
    pub schedule: EpochScheduleParams,
    /// Every slot up to this one has been checked.
    pub last_checked_slot: u64,
    pub current_epoch: u64,
    /// Our leader slots, by epoch.
    pub leader_slots_cache: HashMap<u64, Vec<u64>>,
    /// The highest vote latency recorded since the last report.
    pub max_vote_latency: u64,
    /// The vote latencies recorded since the last report, in order.
    pub latencies: Ghost<Seq<u64>>,
}

/// Whether `after` holds what `before` held of the epoch: the schedule, the
/// current epoch, the last slot checked and the cached leader slots.
pub open spec fn epoch_state_kept(before: SlotTracker, after: SlotTracker) -> bool {
    &&& after.schedule == before.schedule
    &&& after.current_epoch == before.current_epoch
    &&& after.last_checked_slot == before.last_checked_slot
    &&& after.leader_slots_cache@ == before.leader_slots_cache@
}

/// Whether `after` is `before` moved to `epoch`, with `leader_slots` cached for it.
pub open spec fn installed(before: SlotTracker, after: SlotTracker, epoch: u64, leader_slots: Vec<u64>) -> bool {
    &&& after.schedule == before.schedule
    &&& after.current_epoch == epoch
    &&& after.last_checked_slot == before.last_checked_slot
    &&& after.leader_slots_cache@ == before.leader_slots_cache@.insert(epoch, leader_slots)
}

/// Whether `after` is `before` with every slot up to `current_slot` checked.
pub open spec fn finished(before: SlotTracker, after: SlotTracker, current_slot: u64) -> bool {
    &&& after.schedule == before.schedule
    &&& after.current_epoch == before.current_epoch
    &&& after.last_checked_slot == current_slot
    &&& after.leader_slots_cache@ == before.leader_slots_cache@
}

impl SlotTracker {
    /// Whether the current epoch is that of the last slot checked, with our
    /// leader slots cached for it.
    pub open spec fn epoch_settled(&self) -> bool {
        &&& self.current_epoch == epoch_of_slot(self.schedule, self.last_checked_slot)
        &&& self.leader_slots_cache@.contains_key(self.current_epoch)
    }

    /// The tracker's invariant: the maximum is that of the latencies recorded.
    pub open spec fn wf(&self) -> bool {
        self.max_vote_latency == seq_max(self.latencies@)
    }

    /// Starts in the epoch of `current_slot`, with our leader slots of that
    /// epoch cached, and every slot up to `current_slot` counted as checked.
    pub fn new(schedule: EpochScheduleParams, current_slot: u64, leader_slots: Vec<u64>) -> (t: Self)
        requires
            epoch_lookup_ok(schedule, current_slot),
        ensures
            t.wf(),
            t.epoch_settled(),
            t.schedule == schedule,
            t.current_epoch == epoch_of_slot(schedule, current_slot),
            t.last_checked_slot == current_slot,
            t.leader_slots_cache@ == Map::<u64, Vec<u64>>::empty().insert(t.current_epoch, leader_slots),
            t.max_vote_latency == 0,
            t.latencies@ == Seq::<u64>::empty(),
    {
        let current_epoch = schedule.epoch_of(current_slot);
        let mut cache: HashMap<u64, Vec<u64>> = HashMap::new();
        cache.insert(current_epoch, leader_slots);
        SlotTracker {
            schedule,
            last_checked_slot: current_slot,
            current_epoch,
            leader_slots_cache: cache,
            max_vote_latency: 0,
            latencies: Ghost(Seq::empty()),
        }
    }

    /// The epoch that `slot` belongs to.
    pub fn epoch_of(&self, slot: u64) -> (epoch: u64)
        requires
            epoch_lookup_ok(self.schedule, slot),
        ensures
            epoch == epoch_of_slot(self.schedule, slot),
    {
        self.schedule.epoch_of(slot)
    }

    /// Whether `epoch` is not the current one.
    pub fn epoch_changed(&self, epoch: u64) -> (changed: bool)
        ensures
            changed == (epoch != self.current_epoch),
    {
        epoch != self.current_epoch
    }

    /// Moves to `new_epoch`, caching our leader slots for it.
    pub fn install_epoch(&mut self, new_epoch: u64, leader_slots: Vec<u64>)
        requires
            old(self).wf(),
        ensures
            final(self).wf(),
            installed(*old(self), *final(self), new_epoch, leader_slots),
            final(self).current_epoch == new_epoch,
            final(self).leader_slots_cache@ == old(self).leader_slots_cache@.insert(new_epoch, leader_slots),
            final(self).schedule == old(self).schedule,
            final(self).last_checked_slot == old(self).last_checked_slot,
            final(self).max_vote_latency == old(self).max_vote_latency,
            final(self).latencies == old(self).latencies,
    {
        self.leader_slots_cache.insert(new_epoch, leader_slots);
        self.current_epoch = new_epoch;
    }

    /// Returns the highest vote latency recorded since the last report, and
    /// starts over from none.
    pub fn take_max_vote_latency(&mut self) -> (max: u64)
        requires
            old(self).wf(),
        ensures
            max == seq_max(old(self).latencies@),
            final(self).wf(),
            final(self).max_vote_latency == 0,
            final(self).latencies@ == Seq::<u64>::empty(),
            final(self).schedule == old(self).schedule,
            final(self).last_checked_slot == old(self).last_checked_slot,
            final(self).current_epoch == old(self).current_epoch,
            final(self).leader_slots_cache@ == old(self).leader_slots_cache@,
    {
        let max = self.max_vote_latency;
        self.max_vote_latency = 0;
        self.latencies = Ghost(Seq::empty());
        max
    }

    /// The slots still to check up to `current_slot`, first and last, if any.
    pub fn pending_slots(&self, current_slot: u64) -> (range: Option<(u64, u64)>)
        requires
            self.last_checked_slot < u64::MAX,
        ensures
            range == if self.last_checked_slot < current_slot {
                Some(((self.last_checked_slot + 1) as u64, current_slot))
            } else {
                None::<(u64, u64)>
            },
    {
        if self.last_checked_slot < current_slot {
            Some((self.last_checked_slot + 1, current_slot))
        } else {
            None
        }
    }

    /// Checks that leader slots are cached for the current epoch, and tells
    /// whether `slot` is one of ours.
    pub fn check_slot(&self, slot: u64) -> (res: Result<bool, SlotError>)
        ensures
            !self.leader_slots_cache@.contains_key(self.current_epoch)
                <==> res == Err::<bool, SlotError>(SlotError::NoLeaderSlotsCached),
            res matches Ok(is_leader) ==> is_leader
                == self.leader_slots_cache@[self.current_epoch]@.contains(slot),
    {
        match self.leader_slots_cache.get(&self.current_epoch) {
            None => Err(SlotError::NoLeaderSlotsCached),
            Some(slots) => {
                let mut i: usize = 0;
                #[verifier::loop_isolation(false)]
                while i < slots.len()
                    invariant
                        0 <= i <= slots.len(),
                        forall|j: int| 0 <= j < i ==> slots@[j] != slot,
                    decreases slots.len() - i,
                {
                    if slots[i] == slot {
                        assert(slots@[i as int] == slot);
                        return Ok(true);
                    }
                    i = i + 1;
                }
                Ok(false)
            },
        }
    }

    /// Records a vote latency found in a slot.
    pub fn record_vote_latency(&mut self, latency: u64)
        requires
            old(self).wf(),
        ensures
            final(self).wf(),
            final(self).latencies@ == old(self).latencies@.push(latency),
            final(self).max_vote_latency == if latency > old(self).max_vote_latency {
                latency
            } else {
                old(self).max_vote_latency
            },
            final(self).schedule == old(self).schedule,
            final(self).last_checked_slot == old(self).last_checked_slot,
            final(self).current_epoch == old(self).current_epoch,
            final(self).leader_slots_cache@ == old(self).leader_slots_cache@,
    {
        let ghost before = self.latencies@;
        if latency > self.max_vote_latency {
            self.max_vote_latency = latency;
        }
        self.latencies = Ghost(before.push(latency));
        assert(self.latencies@.drop_last() =~= before);
    }

    /// Marks every slot up to `current_slot` as checked.
    pub fn finish_slots(&mut self, current_slot: u64)
        requires
            old(self).wf(),
        ensures
            final(self).wf(),
            finished(*old(self), *final(self), current_slot),
            final(self).last_checked_slot == current_slot,
            final(self).schedule == old(self).schedule,
            final(self).current_epoch == old(self).current_epoch,
            final(self).leader_slots_cache@ == old(self).leader_slots_cache@,
            final(self).max_vote_latency == old(self).max_vote_latency,
            final(self).latencies == old(self).latencies,
    {
        self.last_checked_slot = current_slot;
    }
}

/// A round of slot processing leaves the tracker settled: where the epoch of
/// the current slot differs from the tracked one, the tracker moves to it and
/// caches our leader slots for it (else its epoch state is kept); once every
/// slot up to the current one is checked, the tracked epoch is that of the
/// last slot checked, our leader slots are cached for it, and no epoch cached
/// before has been dropped.
pub proof fn lemma_round_keeps_epoch_cached(
    before: SlotTracker,
    moved: SlotTracker,
    after: SlotTracker,
    current_slot: u64,
    leader_slots: Vec<u64>,
)
    requires
        before.epoch_settled(),
        epoch_of_slot(before.schedule, current_slot) != before.current_epoch
            ==> installed(before, moved, epoch_of_slot(before.schedule, current_slot), leader_slots),
        epoch_of_slot(before.schedule, current_slot) == before.current_epoch ==> epoch_state_kept(before, moved),
        finished(moved, after, current_slot),
    ensures
        after.epoch_settled(),
        after.current_epoch == epoch_of_slot(after.schedule, current_slot),
        forall|e: u64| #[trigger] before.leader_slots_cache@.contains_key(e) ==> after.leader_slots_cache@.contains_key(e),
{
}

} // verus!
