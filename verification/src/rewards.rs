//! Block rewards of our leader slots in the current epoch: which slots to
//! look at next, what a block reply gives, and the running totals.
use vstd::prelude::*;
use crate::schedule::{EpochScheduleParams, epoch_of_slot, epoch_lookup_ok, first_slot_of, last_slot_of};
use crate::text::{contains_text, contains_text_spec};

verus! {

/// How many recent non-zero rewards are kept.
pub const MAX_RECENT_REWARDS: usize = 10;

/// How many leader slots one cycle looks at, at most.
pub const MAX_SLOTS_PER_CYCLE: usize = 10;

/// How many of the recent rewards the average takes.
pub const AVERAGED_REWARDS: usize = 4;

/// Why a block's rewards, or the tracker's next step, could not be had.
#[derive(Debug, PartialEq, Eq)]
pub enum RewardsError {
    /// The block came without its rewards.
    MissingRewards,
    /// The node refused the request, with this message.
    Rpc(String),
    /// The epoch starts at slot 0, so no slot precedes it.
    EpochStartsAtSlotZero,
}

/// The rewards of a block: the first reward's lamports, or 0 for a block
/// without any; a slot that the node reports as skipped earns 0.
pub open spec fn block_rewards_spec(reply: Result<Option<Vec<i64>>, String>) -> Result<i64, RewardsError> {
    match reply {
        Ok(None) => Err(RewardsError::MissingRewards),
        Ok(Some(rewards)) => Ok(if rewards@.len() == 0 { 0 } else { rewards@[0] }),
        Err(message) => if contains_text_spec(message@, "skipped"@) {
            Ok(0)
        } else {
            Err(RewardsError::Rpc(message))
        },
    }
}

/// The rewards of a block, from the node's reply to a block request made with
/// rewards and without transactions: the lamports of each reward in order, or
/// the error message.
pub fn block_rewards_from_reply(reply: Result<Option<Vec<i64>>, String>) -> (res: Result<i64, RewardsError>)
    ensures
        res == block_rewards_spec(reply),
{
    match reply {
        Ok(None) => Err(RewardsError::MissingRewards),
        Ok(Some(rewards)) => {
            if rewards.len() == 0 {
                Ok(0)
            } else {
                Ok(rewards[0])
            }
        },
        Err(message) => {
            if contains_text(message.as_str(), "skipped") {
                Ok(0)
            } else {
                Err(RewardsError::Rpc(message))
            }
        },
    }
}

/// The sum of `s`.
pub open spec fn reward_sum(s: Seq<i64>) -> int
    decreases s.len(),
{
    if s.len() == 0 {
        0
    } else {
        reward_sum(s.drop_last()) + s.last()
    }
}

/// The rewards above zero among `results`, in order.
pub open spec fn positive_rewards(results: Seq<Option<i64>>) -> Seq<i64>
    decreases results.len(),
{
    if results.len() == 0 {
        Seq::empty()
    } else {
        let before = positive_rewards(results.drop_last());
        match results.last() {
            Some(r) => if r > 0 { before.push(r) } else { before },
            None => before,
        }
    }
}

/// The last `n` elements of `s` (all of them where there are fewer).
pub open spec fn keep_last(s: Seq<i64>, n: nat) -> Seq<i64> {
    if s.len() > n {
        s.skip(s.len() - n)
    } else {
        s
    }
}

/// The slots among `slots` after `last_processed` and at most `current`, in order.
pub open spec fn eligible_slots(slots: Seq<u64>, last_processed: u64, current: u64) -> Seq<u64>
    decreases slots.len(),
{
    if slots.len() == 0 {
        Seq::empty()
    } else {
        let before = eligible_slots(slots.drop_last(), last_processed, current);
        if last_processed < slots.last() && slots.last() <= current {
            before.push(slots.last())
        } else {
            before
        }
    }
}

/// The slots that one cycle looks at: the first (at most ten) of those after
/// `last_processed` and at most `bound`.
pub open spec fn due_slots(slots: Seq<u64>, last_processed: u64, bound: u64) -> Seq<u64> {
    let e = eligible_slots(slots, last_processed, bound);
    if e.len() > MAX_SLOTS_PER_CYCLE {
        e.take(MAX_SLOTS_PER_CYCLE as int)
    } else {
        e
    }
}

/// `current`, or the epoch's last slot where that comes first.
pub open spec fn cycle_bound(current: u64, epoch_last: u64) -> u64 {
    if current < epoch_last { current } else { epoch_last }
}

/// Where a cycle leaves the mark: at the last slot fetched where the cycle
/// was cut off at its cap, else at `bound`; it never moves back.
pub open spec fn next_mark(slots: Seq<u64>, last_processed: u64, bound: u64) -> u64 {
    let due = due_slots(slots, last_processed, bound);
    if due.len() == MAX_SLOTS_PER_CYCLE {
        due[MAX_SLOTS_PER_CYCLE - 1]
    } else if last_processed < bound {
        bound
    } else {
        last_processed
    }
}

/// Whether `s` rises strictly.
pub open spec fn strictly_ascending(s: Seq<u64>) -> bool {
    forall|i: int, j: int| 0 <= i < j < s.len() ==> s[i] < s[j]
}

/// Whether `sorted` holds the slots of `slots` once each, in rising order.
pub open spec fn sorted_distinct(slots: Seq<u64>, sorted: Seq<u64>) -> bool {
    &&& strictly_ascending(sorted)
    &&& forall|x: u64| #[trigger] sorted.contains(x) <==> slots.contains(x)
}

/// `a / b` rounded toward zero, as integer division does on `i64`.
pub open spec fn trunc_div(a: int, b: int) -> int {
    if a >= 0 { a / b } else { -((-a) / b) }
}

/// The recent rewards that the average takes: the last (up to) four.
pub open spec fn averaged_rewards(recent: Seq<i64>) -> Seq<i64> {
    keep_last(recent, AVERAGED_REWARDS as nat)
}

/// The average of the last (up to four) recent rewards, rounded toward zero;
/// 0 for none.
pub open spec fn recent_average(recent: Seq<i64>) -> int {
    if recent.len() == 0 {
        0
    } else {
        trunc_div(reward_sum(averaged_rewards(recent)), averaged_rewards(recent).len() as int)
    }
}

/// Whether summing the averaged rewards from the first stays within `i64`.
pub open spec fn average_fits(recent: Seq<i64>) -> bool {
    forall|j: int| 0 <= j <= averaged_rewards(recent).len()
        ==> i64::MIN <= #[trigger] reward_sum(averaged_rewards(recent).take(j)) <= i64::MAX
}

/// Whether every reward in `s` is above zero.
pub open spec fn all_positive(s: Seq<i64>) -> bool {
    forall|i: int| 0 <= i < s.len() ==> s[i] > 0
}

/// The block rewards earned in our leader slots of the current epoch.
pub struct BlockRewardsTracker {
    pub schedule: EpochScheduleParams,
    pub current_epoch: u64,
    /// Leader slots up to this one have been looked at.
    pub last_processed_slot: u64,
    /// Our leader slots in the current epoch, each once, in rising order.
    pub leader_slots: Vec<u64>,
    /// The sum of the rewards above zero found in this epoch.
    pub total_block_rewards: i64,
    /// The last rewards above zero found in this epoch, oldest first.
    pub recent_block_rewards: Vec<i64>,
    /// Where the mark stood when this epoch's tracking began.
    pub window_start: Ghost<u64>,
    /// What the lookup of each leader slot looked at in this epoch gave
    /// (`None` where it failed), in the order of those slots.
    pub lookups: Ghost<Seq<Option<i64>>>,
    /// Every reward above zero found in this epoch, in the order found.
    pub found: Ghost<Seq<i64>>,
}

proof fn lemma_positive_rewards_are_positive(results: Seq<Option<i64>>)
    ensures
        all_positive(positive_rewards(results)),
    decreases results.len(),
{
    if results.len() > 0 {
        lemma_positive_rewards_are_positive(results.drop_last());
    }
}

proof fn lemma_sum_concat(a: Seq<i64>, b: Seq<i64>)
    ensures
        reward_sum(a + b) == reward_sum(a) + reward_sum(b),
    decreases b.len(),
{
    if b.len() > 0 {
        assert((a + b).drop_last() =~= a + b.drop_last());
        lemma_sum_concat(a, b.drop_last());
    } else {
        assert(a + b =~= a);
    }
}

/// Summing a longer prefix of the results adds only rewards above zero.
proof fn lemma_positive_sum_monotone(results: Seq<Option<i64>>, i: int, j: int)
    requires
        0 <= i <= j <= results.len(),
    ensures
        reward_sum(positive_rewards(results.take(i))) <= reward_sum(positive_rewards(results.take(j))),
    decreases j - i,
{
    if i < j {
        lemma_positive_sum_monotone(results, i, j - 1);
        let prefix = results.take(j);
        assert(prefix.drop_last() =~= results.take(j - 1));
        let p = positive_rewards(results.take(j - 1));
        match prefix.last() {
            Some(r) => {
                if r > 0 {
                    assert(p.push(r).drop_last() =~= p);
                }
            },
            None => {},
        }
    }
}

proof fn lemma_keep_last_push(a: Seq<i64>, x: i64)
    ensures
        ({
            let k = keep_last(a, MAX_RECENT_REWARDS as nat).push(x);
            keep_last(a.push(x), MAX_RECENT_REWARDS as nat) =~= if k.len() > MAX_RECENT_REWARDS {
                k.skip(1)
            } else {
                k
            }
        }),
{
}

impl BlockRewardsTracker {
    /// The leader slots looked at in this epoch: those after the mark at
    /// which the epoch's tracking began, up to the current mark.
    pub open spec fn looked_at(&self) -> Seq<u64> {
        eligible_slots(self.leader_slots@, self.window_start@, self.last_processed_slot)
    }

    /// The slots that a cycle at `current_slot` looks at.
    pub open spec fn cycle_due(&self, current_slot: u64) -> Seq<u64> {
        due_slots(self.leader_slots@, self.last_processed_slot,
            cycle_bound(current_slot, last_slot_of(self.schedule, self.current_epoch)))
    }

    /// The tracker's invariant: the leader slots rise; each leader slot looked
    /// at in this epoch has its lookup; the rewards found are the lookups'
    /// rewards above zero; and the totals are those of the rewards found.
    pub open spec fn wf(&self) -> bool {
        &&& strictly_ascending(self.leader_slots@)
        &&& self.window_start@ <= self.last_processed_slot
        &&& self.lookups@.len() == self.looked_at().len()
        &&& self.found@ == positive_rewards(self.lookups@)
        &&& all_positive(self.found@)
        &&& self.total_block_rewards == reward_sum(self.found@)
        &&& self.recent_block_rewards@ == keep_last(self.found@, MAX_RECENT_REWARDS as nat)
    }

    /// Starts tracking in the epoch of `current_slot`, with our leader slots
    /// of that epoch (kept once each, in rising order), from before its first
    /// slot.
    pub fn new(schedule: EpochScheduleParams, current_slot: u64, leader_slots: Vec<u64>) -> (res: Result<Self, RewardsError>)
        requires
            epoch_lookup_ok(schedule, current_slot),
        ensures
            res is Ok <==> first_slot_of(schedule, epoch_of_slot(schedule, current_slot)) != 0,
            res matches Err(e) ==> e == RewardsError::EpochStartsAtSlotZero,
            res matches Ok(t) ==> {
                &&& t.wf()
                &&& t.schedule == schedule
                &&& t.current_epoch == epoch_of_slot(schedule, current_slot)
                &&& t.last_processed_slot == first_slot_of(schedule, t.current_epoch) - 1
                &&& t.window_start@ == t.last_processed_slot
                &&& sorted_distinct(leader_slots@, t.leader_slots@)
                &&& t.lookups@ == Seq::<Option<i64>>::empty()
                &&& t.found@ == Seq::<i64>::empty()
                &&& t.total_block_rewards == 0
                &&& t.recent_block_rewards@ == Seq::<i64>::empty()
            },
    {
        let current_epoch = schedule.epoch_of(current_slot);
        let first_slot = schedule.first_slot_in_epoch(current_epoch);
        if first_slot == 0 {
            return Err(RewardsError::EpochStartsAtSlotZero);
        }
        let sorted = sort_distinct(&leader_slots);
        let t = BlockRewardsTracker {
            schedule,
            current_epoch,
            last_processed_slot: first_slot - 1,
            leader_slots: sorted,
            total_block_rewards: 0,
            recent_block_rewards: Vec::new(),
            window_start: Ghost((first_slot - 1) as u64),
            lookups: Ghost(Seq::empty()),
            found: Ghost(Seq::empty()),
        };
        proof {
            lemma_eligible_empty_window(t.leader_slots@, t.window_start@);
        }
        assert(t.recent_block_rewards@ =~= keep_last(Seq::<i64>::empty(), MAX_RECENT_REWARDS as nat));
        assert(positive_rewards(Seq::<Option<i64>>::empty()) =~= Seq::<i64>::empty());
        Ok(t)
    }

    /// The epoch that `slot` belongs to.
    pub fn epoch_of(&self, slot: u64) -> (epoch: u64)
        requires
            epoch_lookup_ok(self.schedule, slot),
        ensures
            epoch == epoch_of_slot(self.schedule, slot),
    {
        self.schedule.epoch_of(slot)
    }

    /// Whether `epoch` is not the one being tracked.
    pub fn epoch_changed(&self, epoch: u64) -> (changed: bool)
        ensures
            changed == (epoch != self.current_epoch),
    {
        epoch != self.current_epoch
    }

    /// Moves to `new_epoch`: nothing found yet, every slot of the new epoch
    /// still to look at, and our leader slots of the new epoch where they
    /// could be had (`None` keeps the old ones). Returns the epoch's first
    /// slot.
    pub fn begin_epoch(&mut self, new_epoch: u64, leader_slots: Option<Vec<u64>>) -> (res: Result<u64, RewardsError>)
        requires
            old(self).wf(),
        ensures
            final(self).wf(),
            final(self).current_epoch == new_epoch,
            final(self).total_block_rewards == 0,
            final(self).lookups@ == Seq::<Option<i64>>::empty(),
            final(self).found@ == Seq::<i64>::empty(),
            final(self).recent_block_rewards@ == Seq::<i64>::empty(),
            final(self).schedule == old(self).schedule,
            final(self).window_start@ == final(self).last_processed_slot,
            res is Ok <==> first_slot_of(old(self).schedule, new_epoch) != 0,
            res matches Err(e) ==> e == RewardsError::EpochStartsAtSlotZero,
            res matches Ok(first) ==> first == first_slot_of(old(self).schedule, new_epoch)
                && final(self).last_processed_slot == first - 1,
            res is Err ==> final(self).last_processed_slot == old(self).last_processed_slot
                && final(self).leader_slots == old(self).leader_slots,
            res is Ok ==> match leader_slots {
                Some(v) => sorted_distinct(v@, final(self).leader_slots@),
                None => final(self).leader_slots == old(self).leader_slots,
            },
    {
        self.current_epoch = new_epoch;
        self.total_block_rewards = 0;
        self.recent_block_rewards.clear();
        self.found = Ghost(Seq::empty());
        self.lookups = Ghost(Seq::empty());
        self.window_start = Ghost(self.last_processed_slot);
        assert(self.recent_block_rewards@ =~= keep_last(Seq::<i64>::empty(), MAX_RECENT_REWARDS as nat));
        assert(positive_rewards(Seq::<Option<i64>>::empty()) =~= Seq::<i64>::empty());
        proof {
            lemma_eligible_empty_window(self.leader_slots@, self.window_start@);
        }
        let first_slot = self.schedule.first_slot_in_epoch(new_epoch);
        if first_slot == 0 {
            return Err(RewardsError::EpochStartsAtSlotZero);
        }
        self.last_processed_slot = first_slot - 1;
        self.window_start = Ghost((first_slot - 1) as u64);
        match leader_slots {
            Some(v) => {
                self.leader_slots = sort_distinct(&v);
            },
            None => {},
        }
        proof {
            lemma_eligible_empty_window(self.leader_slots@, self.window_start@);
        }
        Ok(first_slot)
    }

    /// The leader slots whose rewards this cycle looks up: the first (at most
    /// ten) of our leader slots after the last one looked at and not after
    /// `current_slot` nor the end of the current epoch.
    pub fn slots_to_fetch(&self, current_slot: u64) -> (slots: Vec<u64>)
        ensures
            slots@ == self.cycle_due(current_slot),
            slots@.len() <= MAX_SLOTS_PER_CYCLE,
            forall|i: int| 0 <= i < slots@.len() ==> self.last_processed_slot < #[trigger] slots@[i]
                && slots@[i] <= current_slot && self.leader_slots@.contains(slots@[i]),
    {
        let epoch_last = self.schedule.last_slot_in_epoch(self.current_epoch);
        let bound = if current_slot < epoch_last { current_slot } else { epoch_last };
        let ghost all = self.leader_slots@;
        let mut out: Vec<u64> = Vec::new();
        let mut i: usize = 0;
        assert(all.take(0) =~= Seq::<u64>::empty());
        while i < self.leader_slots.len()
            invariant
                all == self.leader_slots@,
                0 <= i <= all.len(),
                out@ == eligible_slots(all.take(i as int), self.last_processed_slot, bound),
                out@.len() < MAX_SLOTS_PER_CYCLE,
                bound == cycle_bound(current_slot, last_slot_of(self.schedule, self.current_epoch)),
                bound <= current_slot,
            decreases all.len() - i,
        {
            assert(all.take(i + 1).drop_last() =~= all.take(i as int));
            let slot = self.leader_slots[i];
            if self.last_processed_slot < slot && slot <= bound {
                out.push(slot);
                if out.len() >= MAX_SLOTS_PER_CYCLE {
                    proof {
                        lemma_eligible_prefix(all, self.last_processed_slot, bound, i + 1);
                        lemma_eligible_len(all, self.last_processed_slot, bound, i + 1);
                        assert(due_slots(all, self.last_processed_slot, bound) =~= out@);
                        lemma_eligible_members(all, self.last_processed_slot, bound);
                    }
                    return out;
                }
            }
            i = i + 1;
        }
        assert(all.take(all.len() as int) =~= all);
        proof {
            lemma_eligible_members(all, self.last_processed_slot, bound);
        }
        out
    }

    /// Counts the lookups of a cycle (one per slot of `slots_to_fetch` at
    /// `current_slot`, in that order, `None` where the lookup failed) and
    /// moves the mark: to the last slot fetched where the cycle was cut off at
    /// its cap, else to `current_slot` (but not past the end of the epoch, and
    /// never back).
    pub fn apply_cycle(&mut self, rewards: &Vec<Option<i64>>, current_slot: u64)
        requires
            old(self).wf(),
            rewards@.len() == old(self).cycle_due(current_slot).len(),
            old(self).total_block_rewards + reward_sum(positive_rewards(rewards@)) <= i64::MAX,
        ensures
            final(self).wf(),
            final(self).lookups@ == old(self).lookups@ + rewards@,
            final(self).looked_at() == old(self).looked_at() + old(self).cycle_due(current_slot),
            final(self).found@ == old(self).found@ + positive_rewards(rewards@),
            final(self).total_block_rewards == old(self).total_block_rewards + reward_sum(positive_rewards(rewards@)),
            final(self).recent_block_rewards@ == keep_last(old(self).recent_block_rewards@ + positive_rewards(rewards@),
                MAX_RECENT_REWARDS as nat),
            final(self).last_processed_slot == next_mark(old(self).leader_slots@, old(self).last_processed_slot,
                cycle_bound(current_slot, last_slot_of(old(self).schedule, old(self).current_epoch))),
            final(self).schedule == old(self).schedule,
            final(self).current_epoch == old(self).current_epoch,
            final(self).leader_slots == old(self).leader_slots,
            final(self).window_start == old(self).window_start,
    {
        let due = self.slots_to_fetch(current_slot);
        let ghost start = self.found@;
        let ghost start_lookups = self.lookups@;
        let ghost start_total = self.total_block_rewards as int;
        let ghost rs = rewards@;
        let ghost old_looked = self.looked_at();
        let mut i: usize = 0;
        proof {
            assert(rs.take(0) =~= Seq::<Option<i64>>::empty());
            assert(start + positive_rewards(rs.take(0)) =~= start);
        }
        while i < rewards.len()
            invariant
                rs == rewards@,
                0 <= i <= rs.len(),
                all_positive(self.found@),
                self.total_block_rewards == reward_sum(self.found@),
                self.recent_block_rewards@ == keep_last(self.found@, MAX_RECENT_REWARDS as nat),
                self.found@ == start + positive_rewards(rs.take(i as int)),
                start_total == reward_sum(start),
                start_total + reward_sum(positive_rewards(rs)) <= i64::MAX,
                self.schedule == old(self).schedule,
                self.current_epoch == old(self).current_epoch,
                self.leader_slots == old(self).leader_slots,
                self.last_processed_slot == old(self).last_processed_slot,
                self.window_start == old(self).window_start,
                self.lookups == old(self).lookups,
            decreases rs.len() - i,
        {
            proof {
                assert(rs.take(i + 1).drop_last() =~= rs.take(i as int));
                lemma_positive_sum_monotone(rs, i + 1, rs.len() as int);
                assert(rs.take(rs.len() as int) =~= rs);
                lemma_sum_concat(start, positive_rewards(rs.take(i + 1)));
                lemma_positive_rewards_are_positive(rs.take(i + 1));
            }
            if let Some(r) = rewards[i] {
                if r > 0 {
                    proof {
                        lemma_keep_last_push(self.found@, r);
                        assert(start + positive_rewards(rs.take(i + 1)) =~= self.found@.push(r));
                        assert(self.found@.push(r).drop_last() =~= self.found@);
                        assert(reward_sum(self.found@.push(r)) == reward_sum(self.found@) + r);
                    }
                    self.total_block_rewards = self.total_block_rewards + r;
                    self.recent_block_rewards.push(r);
                    if self.recent_block_rewards.len() > MAX_RECENT_REWARDS {
                        self.recent_block_rewards.remove(0);
                    }
                    self.found = Ghost(self.found@.push(r));
                } else {
                    assert(start + positive_rewards(rs.take(i + 1)) =~= self.found@);
                }
            } else {
                assert(start + positive_rewards(rs.take(i + 1)) =~= self.found@);
            }
            i = i + 1;
        }
        proof {
            assert(rs.take(rs.len() as int) =~= rs);
            lemma_sum_concat(start, positive_rewards(rs));
            lemma_keep_last_window(start, positive_rewards(rs), MAX_RECENT_REWARDS as nat);
            lemma_positive_rewards_concat(start_lookups, rs);
        }
        self.lookups = Ghost(start_lookups + rs);
        let epoch_last = self.schedule.last_slot_in_epoch(self.current_epoch);
        let bound = if current_slot < epoch_last { current_slot } else { epoch_last };
        let mark = self.last_processed_slot;
        let next = if due.len() == MAX_SLOTS_PER_CYCLE {
            due[MAX_SLOTS_PER_CYCLE - 1]
        } else if mark < bound {
            bound
        } else {
            mark
        };
        proof {
            lemma_next_mark_window(self.leader_slots@, self.window_start@, mark, bound);
        }
        self.last_processed_slot = next;
    }

    /// The average of the last (up to four) recent rewards, rounded toward
    /// zero; 0 before any.
    pub fn get_last_block_rewards_avg(&self) -> (avg: i64)
        requires
            average_fits(self.recent_block_rewards@),
        ensures
            avg == recent_average(self.recent_block_rewards@),
    {
        let n = self.recent_block_rewards.len();
        if n == 0 {
            return 0;
        }
        let count: usize = if n < AVERAGED_REWARDS { n } else { AVERAGED_REWARDS };
        let start: usize = n - count;
        let ghost recent = self.recent_block_rewards@;
        let ghost tail = recent.skip(start as int);
        assert(averaged_rewards(recent) =~= tail);
        let mut sum: i64 = 0;
        let mut i: usize = start;
        assert(tail.take(0) =~= Seq::<i64>::empty());
        while i < n
            invariant
                n == self.recent_block_rewards@.len(),
                recent == self.recent_block_rewards@,
                start <= i <= n,
                tail == recent.skip(start as int),
                tail == averaged_rewards(recent),
                average_fits(recent),
                sum == reward_sum(tail.take(i - start)),
            decreases n - i,
        {
            proof {
                assert(tail.take(i - start + 1).drop_last() =~= tail.take(i - start));
                assert(tail.take(i - start + 1).last() == recent[i as int]);
                let j = i - start + 1;
                assert(i64::MIN <= reward_sum(averaged_rewards(recent).take(j)) <= i64::MAX);
            }
            sum = sum + self.recent_block_rewards[i];
            i = i + 1;
        }
        assert(tail.take(n - start) =~= tail);
        sum / (count as i64)
    }
}

/// Our leader slots once each, in rising order.
fn sort_distinct(slots: &Vec<u64>) -> (sorted: Vec<u64>)
    ensures
        sorted_distinct(slots@, sorted@),
{
    let mut out: Vec<u64> = Vec::new();
    let mut i: usize = 0;
    while i < slots.len()
        invariant
            0 <= i <= slots.len(),
            strictly_ascending(out@),
            forall|x: u64| #[trigger] out@.contains(x) <==> slots@.take(i as int).contains(x),
        decreases slots.len() - i,
    {
        let x = slots[i];
        let ghost before = out@;
        assert(forall|y: u64| #[trigger] before.contains(y) <==> slots@.take(i as int).contains(y));
        let mut j: usize = out.len();
        while j > 0 && out[j - 1] > x
            invariant
                0 <= j <= out.len(),
                out@ == before,
                forall|k: int| j <= k < out.len() ==> out@[k] > x,
            decreases j,
        {
            j = j - 1;
        }
        proof {
            assert(slots@.take(i + 1) =~= slots@.take(i as int).push(x));
        }
        if j > 0 && out[j - 1] == x {
            assert forall|y: u64| #[trigger] out@.contains(y) <==> slots@.take(i + 1).contains(y) by {
                if y == x {
                    assert(out@[j - 1] == x);
                    assert(slots@.take(i + 1)[i as int] == x);
                }
                if out@.contains(y) && y != x {
                    assert(slots@.take(i as int).contains(y));
                    let k = choose|k: int| 0 <= k < slots@.take(i as int).len()
                        && #[trigger] slots@.take(i as int)[k] == y;
                    assert(slots@.take(i + 1)[k] == y);
                }
                if slots@.take(i + 1).contains(y) && y != x {
                    let w = choose|w: int| 0 <= w < slots@.take(i + 1).len() && #[trigger] slots@.take(i + 1)[w] == y;
                    assert(slots@.take(i as int)[w] == y);
                }
            }
        } else {
            out.insert(j, x);
            proof {
                assert(out@ == before.insert(j as int, x));
                assert forall|p: int, q: int| 0 <= p < q < out@.len() implies out@[p] < out@[q] by {
                    if q < j {
                    } else if q == j {
                        if p < j as int {
                            assert(before[p] <= before[j - 1]);
                        }
                    } else if p < j {
                    } else if p == j {
                        assert(before[q - 1] > x);
                    } else {
                    }
                }
                assert forall|y: u64| #[trigger] out@.contains(y) <==> slots@.take(i + 1).contains(y) by {
                    if out@.contains(y) && y != x {
                        let w = choose|w: int| 0 <= w < out@.len() && #[trigger] out@[w] == y;
                        if w < j {
                            assert(before[w] == y);
                        } else {
                            assert(before[w - 1] == y);
                        }
                        assert(before.contains(y));
                        assert(slots@.take(i as int).contains(y));
                        let k = choose|k: int| 0 <= k < slots@.take(i as int).len()
                            && #[trigger] slots@.take(i as int)[k] == y;
                        assert(slots@.take(i + 1)[k] == y);
                    }
                    if y == x {
                        assert(out@[j as int] == x);
                        assert(slots@.take(i + 1)[i as int] == x);
                    }
                    if slots@.take(i + 1).contains(y) && y != x {
                        let w = choose|w: int| 0 <= w < slots@.take(i + 1).len() && #[trigger] slots@.take(i + 1)[w] == y;
                        assert(slots@.take(i as int)[w] == y);
                        assert(slots@.take(i as int).contains(y));
                        assert(before.contains(y));
                        let v = choose|v: int| 0 <= v < before.len() && #[trigger] before[v] == y;
                        if v < j {
                            assert(out@[v] == y);
                        } else {
                            assert(out@[v + 1] == y);
                        }
                    }
                }
            }
        }
        i = i + 1;
    }
    assert(slots@.take(slots@.len() as int) =~= slots@);
    out
}

/// No slot lies after `a` and at most `a`.
proof fn lemma_eligible_empty_window(slots: Seq<u64>, a: u64)
    ensures
        eligible_slots(slots, a, a) == Seq::<u64>::empty(),
    decreases slots.len(),
{
    if slots.len() > 0 {
        lemma_eligible_empty_window(slots.drop_last(), a);
    }
}

/// The rewards above zero of two runs of lookups are those of each, in turn.
proof fn lemma_positive_rewards_concat(a: Seq<Option<i64>>, b: Seq<Option<i64>>)
    ensures
        positive_rewards(a + b) == positive_rewards(a) + positive_rewards(b),
    decreases b.len(),
{
    if b.len() == 0 {
        assert(a + b =~= a);
        assert(positive_rewards(a) + positive_rewards(b) =~= positive_rewards(a));
    } else {
        assert((a + b).drop_last() =~= a + b.drop_last());
        lemma_positive_rewards_concat(a, b.drop_last());
        match b.last() {
            Some(r) => {
                if r > 0 {
                    assert((positive_rewards(a) + positive_rewards(b.drop_last())).push(r)
                        =~= positive_rewards(a) + positive_rewards(b.drop_last()).push(r));
                }
            },
            None => {},
        }
    }
}

/// Over rising slots, the slots in `(s, b]` are those in `(s, a]` and then
/// those in `(a, b]`.
proof fn lemma_eligible_split(slots: Seq<u64>, s: u64, a: u64, b: u64)
    requires
        strictly_ascending(slots),
        s <= a <= b,
    ensures
        eligible_slots(slots, s, b) =~= eligible_slots(slots, s, a) + eligible_slots(slots, a, b),
    decreases slots.len(),
{
    if slots.len() > 0 {
        let before = slots.drop_last();
        let x = slots.last();
        assert(strictly_ascending(before));
        lemma_eligible_split(before, s, a, b);
        lemma_eligible_members(before, a, b);
        let tail = eligible_slots(before, a, b);
        if x <= a && tail.len() > 0 {
            let w = choose|w: int| 0 <= w < before.len() && before[w] == tail[0];
            assert(slots[w] < slots[slots.len() - 1]);
        }
    }
}

/// Where a cycle leaves the mark, the slots looked at so far are followed by
/// exactly the slots the cycle fetched.
proof fn lemma_next_mark_window(slots: Seq<u64>, s: u64, a: u64, bound: u64)
    requires
        strictly_ascending(slots),
        s <= a,
    ensures
        a <= next_mark(slots, a, bound),
        eligible_slots(slots, s, next_mark(slots, a, bound))
            =~= eligible_slots(slots, s, a) + due_slots(slots, a, bound),
{
    let m = next_mark(slots, a, bound);
    let e = eligible_slots(slots, a, bound);
    let due = due_slots(slots, a, bound);
    lemma_eligible_members(slots, a, bound);
    lemma_eligible_ascending(slots, a, bound);
    if due.len() == MAX_SLOTS_PER_CYCLE {
        assert(e.len() >= MAX_SLOTS_PER_CYCLE);
        assert(due[9] == e[9]);
        assert(a < m && m <= bound);
        lemma_eligible_split(slots, a, m, bound);
        lemma_eligible_members(slots, a, m);
        lemma_eligible_members(slots, m, bound);
        let x = eligible_slots(slots, a, m);
        let y = eligible_slots(slots, m, bound);
        assert(e =~= x + y);
        if x.len() <= 9 {
            assert(e[9] == y[9 - x.len()]);
        }
        if x.len() >= 11 {
            assert(e[10] == x[10]);
            assert(e[9] < e[10]);
        }
        assert(x.len() == 10);
        assert(x =~= due);
        lemma_eligible_split(slots, s, a, m);
    } else {
        assert(e.len() < MAX_SLOTS_PER_CYCLE);
        assert(due =~= e);
        if a < bound {
            lemma_eligible_split(slots, s, a, bound);
        } else {
            if e.len() > 0 {
                assert(a < e[0] && e[0] <= bound);
            }
            lemma_eligible_empty_window(slots, a);
            assert(eligible_slots(slots, s, a) + due =~= eligible_slots(slots, s, a));
        }
    }
}

/// The running total of an epoch counts every one of our leader slots of the
/// epoch up to the mark, and each of them once: the slots looked at are
/// exactly the leader slots after the mark at which the epoch began and up to
/// the current mark, in rising order with none twice, each has one lookup,
/// and the total is the sum of the lookups' rewards above zero.
pub proof fn lemma_epoch_total_counts_each_leader_slot_once(t: BlockRewardsTracker)
    requires
        t.wf(),
    ensures
        strictly_ascending(t.looked_at()),
        forall|s: u64| #[trigger] t.looked_at().contains(s)
            <==> (t.leader_slots@.contains(s) && t.window_start@ < s && s <= t.last_processed_slot),
        t.lookups@.len() == t.looked_at().len(),
        t.total_block_rewards == reward_sum(positive_rewards(t.lookups@)),
{
    lemma_eligible_ascending(t.leader_slots@, t.window_start@, t.last_processed_slot);
    lemma_eligible_members(t.leader_slots@, t.window_start@, t.last_processed_slot);
    assert forall|s: u64| #[trigger] t.looked_at().contains(s)
        <==> (t.leader_slots@.contains(s) && t.window_start@ < s && s <= t.last_processed_slot) by {
        if t.leader_slots@.contains(s) && t.window_start@ < s && s <= t.last_processed_slot {
            lemma_eligible_complete(t.leader_slots@, t.window_start@, t.last_processed_slot, s);
        }
        if t.looked_at().contains(s) {
            let k = choose|k: int| 0 <= k < t.looked_at().len() && t.looked_at()[k] == s;
            assert(t.looked_at()[k] == s);
        }
    }
}

/// The eligible slots of rising slots rise.
proof fn lemma_eligible_ascending(slots: Seq<u64>, last: u64, current: u64)
    requires
        strictly_ascending(slots),
    ensures
        strictly_ascending(eligible_slots(slots, last, current)),
    decreases slots.len(),
{
    if slots.len() > 0 {
        let before = slots.drop_last();
        assert(strictly_ascending(before));
        lemma_eligible_ascending(before, last, current);
        lemma_eligible_members(before, last, current);
        let e0 = eligible_slots(before, last, current);
        assert forall|i: int| 0 <= i < e0.len() implies e0[i] < slots.last() by {
            let w = choose|w: int| 0 <= w < before.len() && before[w] == e0[i];
            assert(slots[w] == e0[i]);
        }
    }
}

/// A slot of the list after `last` and at most `current` is eligible.
proof fn lemma_eligible_complete(slots: Seq<u64>, last: u64, current: u64, s: u64)
    requires
        slots.contains(s),
        last < s,
        s <= current,
    ensures
        eligible_slots(slots, last, current).contains(s),
    decreases slots.len(),
{
    let e = eligible_slots(slots, last, current);
    if slots.last() == s {
        assert(e[e.len() - 1] == s);
    } else {
        let before = slots.drop_last();
        let w = choose|w: int| 0 <= w < slots.len() && slots[w] == s;
        assert(w < slots.len() - 1);
        assert(before[w] == s);
        lemma_eligible_complete(before, last, current, s);
        let e0 = eligible_slots(before, last, current);
        let v = choose|v: int| 0 <= v < e0.len() && e0[v] == s;
        assert(e[v] == s);
    }
}

/// Keeping the last `n` of a window and then adding more keeps the same last
/// `n` as adding to the whole.
pub proof fn lemma_keep_last_window(a: Seq<i64>, b: Seq<i64>, n: nat)
    ensures
        keep_last(a + b, n) =~= keep_last(keep_last(a, n) + b, n),
{
    let x = a + b;
    let y = keep_last(a, n) + b;
    let kx = keep_last(x, n);
    let ky = keep_last(y, n);
    assert(kx.len() == ky.len());
    assert forall|i: int| 0 <= i < kx.len() implies kx[i] == ky[i] by {
        let ix = x.len() - kx.len() + i;
        let iy = y.len() - ky.len() + i;
        assert(kx[i] == x[ix]);
        assert(ky[i] == y[iy]);
        if ix >= a.len() {
            assert(x[ix] == b[ix - a.len()]);
            assert(y[iy] == b[iy - keep_last(a, n).len()]);
        } else {
            assert(x[ix] == a[ix]);
            assert(y[iy] == keep_last(a, n)[iy]);
        }
    }
}

/// Where any reward is kept, the average is at least 1 and at most any
/// bound on the rewards it averages.
pub proof fn lemma_average_within_rewards(recent: Seq<i64>, bound: int)
    requires
        all_positive(recent),
        recent.len() > 0,
        forall|i: int| 0 <= i < recent.len() && recent.len() - AVERAGED_REWARDS <= i ==> recent[i] <= bound,
    ensures
        1 <= recent_average(recent) <= bound,
{
    let n = recent.len();
    let k = if n < AVERAGED_REWARDS { n } else { AVERAGED_REWARDS as nat };
    let tail = recent.skip(n - k);
    assert(averaged_rewards(recent) =~= tail);
    assert(all_positive(tail));
    lemma_sum_bounds(tail);
    assert forall|j: int| 0 <= j < tail.len() implies tail[j] <= bound by {
        assert(tail[j] == recent[n - k + j]);
    }
    lemma_sum_upper(tail, bound);
    let total = reward_sum(tail);
    assert(total <= k * bound);
    assert(total >= k as int);
    assert(total / (k as int) <= bound) by (nonlinear_arith)
        requires total <= k * bound, k > 0;
    assert(total / (k as int) >= 1) by (nonlinear_arith)
        requires total >= k, k > 0;
}

/// Rewards above zero sum to at least their count.
proof fn lemma_sum_bounds(s: Seq<i64>)
    requires
        all_positive(s),
    ensures
        reward_sum(s) >= s.len(),
    decreases s.len(),
{
    if s.len() > 0 {
        lemma_sum_bounds(s.drop_last());
    }
}

/// Rewards at most `m` sum to at most `m` times their count.
proof fn lemma_sum_upper(s: Seq<i64>, m: int)
    requires
        forall|j: int| 0 <= j < s.len() ==> s[j] <= m,
    ensures
        reward_sum(s) <= s.len() * m,
    decreases s.len(),
{
    if s.len() > 0 {
        lemma_sum_upper(s.drop_last(), m);
        assert(s.len() * m == (s.len() - 1) * m + m) by (nonlinear_arith);
    }
}

/// The eligible slots of a prefix are a prefix of the eligible slots.
proof fn lemma_eligible_prefix(slots: Seq<u64>, last: u64, current: u64, i: int)
    requires
        0 <= i <= slots.len(),
    ensures
        eligible_slots(slots.take(i), last, current).len() <= eligible_slots(slots, last, current).len(),
        eligible_slots(slots.take(i), last, current) =~= eligible_slots(slots, last, current).take(
            eligible_slots(slots.take(i), last, current).len() as int),
    decreases slots.len() - i,
{
    if i < slots.len() {
        lemma_eligible_prefix(slots, last, current, i + 1);
        assert(slots.take(i + 1).drop_last() =~= slots.take(i));
    } else {
        assert(slots.take(i) =~= slots);
    }
}

/// Eligibility keeps the length of the prefix an upper bound.
proof fn lemma_eligible_len(slots: Seq<u64>, last: u64, current: u64, i: int)
    requires
        0 <= i <= slots.len(),
    ensures
        eligible_slots(slots.take(i), last, current).len() <= i,
    decreases i,
{
    if i > 0 {
        assert(slots.take(i).drop_last() =~= slots.take(i - 1));
        lemma_eligible_len(slots, last, current, i - 1);
    }
}

/// Every eligible slot is one of the slots, after `last` and at most `current`.
proof fn lemma_eligible_members(slots: Seq<u64>, last: u64, current: u64)
    ensures
        forall|k: int| 0 <= k < eligible_slots(slots, last, current).len() ==> {
            let s = #[trigger] eligible_slots(slots, last, current)[k];
            last < s && s <= current && slots.contains(s)
        },
    decreases slots.len(),
{
    if slots.len() > 0 {
        lemma_eligible_members(slots.drop_last(), last, current);
        let before = eligible_slots(slots.drop_last(), last, current);
        assert forall|k: int| 0 <= k < eligible_slots(slots, last, current).len() implies {
            let s = #[trigger] eligible_slots(slots, last, current)[k];
            last < s && s <= current && slots.contains(s)
        } by {
            if k < before.len() {
                let s = before[k];
                let j = choose|j: int| 0 <= j < slots.drop_last().len() && slots.drop_last()[j] == s;
                assert(slots[j] == s);
            } else {
                assert(slots[slots.len() - 1] == slots.last());
            }
        }
    }
}

} // verus!
