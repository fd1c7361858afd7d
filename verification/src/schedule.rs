//! Epoch schedule arithmetic, computed by `solana_sdk::epoch_schedule::EpochSchedule`.
use vstd::prelude::*;
use solana_sdk::epoch_schedule::EpochSchedule;

verus! {

/// The minimum number of slots in an epoch during the warmup period.
pub const MINIMUM_SLOTS_PER_EPOCH: u64 = 32;

/// The fields of an epoch schedule, as the cluster reports them.
#[derive(Clone, Copy, Debug, PartialEq, Eq)]
pub struct EpochScheduleParams {
    pub slots_per_epoch: u64,
    pub leader_schedule_slot_offset: u64,
    pub warmup: bool,
    pub first_normal_epoch: u64,
    pub first_normal_slot: u64,
}

/// `x` clamped to the range of `u64`.
pub open spec fn sat(x: int) -> u64 {
    if x > u64::MAX as int {
        u64::MAX
    } else if x < 0 {
        0
    } else {
        x as u64
    }
}

/// `x` clamped to at most `u32::MAX`.
pub open spec fn min_u32(x: int) -> int {
    if x > u32::MAX as int {
        u32::MAX as int
    } else {
        x
    }
}

/// `2.saturating_pow(e)` on `u64`.
pub open spec fn sat_pow2(e: nat) -> u64 {
    sat(vstd::arithmetic::power2::pow2(e) as int)
}

/// The first slot of `epoch`.
pub open spec fn first_slot_of(s: EpochScheduleParams, epoch: u64) -> u64 {
    if epoch <= s.first_normal_epoch {
        sat((sat(sat_pow2((epoch % 0x1_0000_0000) as nat) - 1) * MINIMUM_SLOTS_PER_EPOCH) as int)
    } else {
        sat(sat((epoch - s.first_normal_epoch) * s.slots_per_epoch) + s.first_normal_slot)
    }
}

/// The number of slots in `epoch`.
pub open spec fn slots_in_epoch(s: EpochScheduleParams, epoch: u64) -> u64 {
    if epoch < s.first_normal_epoch {
        sat_pow2(min_u32((epoch % 0x1_0000_0000) + 5) as nat)
    } else {
        s.slots_per_epoch
    }
}

/// The last slot of `epoch`.
pub open spec fn last_slot_of(s: EpochScheduleParams, epoch: u64) -> u64 {
    sat(sat(first_slot_of(s, epoch) + slots_in_epoch(s, epoch)) - 1)
}

/// The epoch of `slot` once warmup is over.
pub open spec fn normal_epoch_of(s: EpochScheduleParams, slot: u64) -> u64 {
    if s.slots_per_epoch == 0 {
        s.first_normal_epoch
    } else {
        sat(s.first_normal_epoch + (slot - s.first_normal_slot) / (s.slots_per_epoch as int))
    }
}

/// The least `k` with `2^k >= x`.
pub open spec fn ceil_log2(x: nat) -> nat
    decreases x,
{
    if x <= 1 {
        0
    } else {
        1 + ceil_log2(((x + 1) / 2) as nat)
    }
}

/// The epoch of `slot`: during warmup, epoch `e` holds `32 * 2^e` slots
/// starting at slot `32 * (2^e - 1)`; past the first normal slot, the normal
/// count.
pub open spec fn epoch_of_slot(s: EpochScheduleParams, slot: u64) -> u64 {
    if slot < s.first_normal_slot {
        (ceil_log2((slot + MINIMUM_SLOTS_PER_EPOCH + 1) as nat) - 6) as u64
    } else {
        normal_epoch_of(s, slot)
    }
}

/// Whether `EpochSchedule::get_epoch` returns for `slot`: in warmup it
/// rounds `slot + 33` up to a power of two, which must fit in a `u64`.
pub open spec fn epoch_lookup_ok(s: EpochScheduleParams, slot: u64) -> bool {
    slot >= s.first_normal_slot || slot + MINIMUM_SLOTS_PER_EPOCH + 1 <= 0x8000_0000_0000_0000
}

/// Calls `EpochSchedule::get_epoch` of `solana-epoch-schedule`. In warmup it takes the trailing
/// zeros of `(slot + 33).next_power_of_two()` (that is, its base-2 logarithm
/// rounded up) less 6, with saturating steps that never bite there; past the
/// first normal slot it counts normal epochs with saturating and checked
/// arithmetic. `next_power_of_two` panics in debug builds above `2^63`, which
/// the `requires` leaves out.
#[verifier::external_body]
fn call_get_epoch(s: &EpochScheduleParams, slot: u64) -> (epoch: u64)
    requires
        epoch_lookup_ok(*s, slot),
    ensures
        epoch == epoch_of_slot(*s, slot),
{
    let schedule = EpochSchedule {
        slots_per_epoch: s.slots_per_epoch,
        leader_schedule_slot_offset: s.leader_schedule_slot_offset,
        warmup: s.warmup,
        first_normal_epoch: s.first_normal_epoch,
        first_normal_slot: s.first_normal_slot,
    };
    schedule.get_epoch(slot)
}

/// Calls `EpochSchedule::get_first_slot_in_epoch`, whose whole computation
/// (saturating powers of two in warmup, a saturating product past it) the
/// contract states.
#[verifier::external_body]
fn call_get_first_slot_in_epoch(s: &EpochScheduleParams, epoch: u64) -> (slot: u64)
    ensures
        slot == first_slot_of(*s, epoch),
{
    let schedule = EpochSchedule {
        slots_per_epoch: s.slots_per_epoch,
        leader_schedule_slot_offset: s.leader_schedule_slot_offset,
        warmup: s.warmup,
        first_normal_epoch: s.first_normal_epoch,
        first_normal_slot: s.first_normal_slot,
    };
    schedule.get_first_slot_in_epoch(epoch)
}

/// Calls `EpochSchedule::get_last_slot_in_epoch`: the first slot plus the
/// length of the epoch, minus one, all saturating, as `solana-epoch-schedule` computes it.
#[verifier::external_body]
fn call_get_last_slot_in_epoch(s: &EpochScheduleParams, epoch: u64) -> (slot: u64)
    ensures
        slot == last_slot_of(*s, epoch),
{
    let schedule = EpochSchedule {
        slots_per_epoch: s.slots_per_epoch,
        leader_schedule_slot_offset: s.leader_schedule_slot_offset,
        warmup: s.warmup,
        first_normal_epoch: s.first_normal_epoch,
        first_normal_slot: s.first_normal_slot,
    };
    schedule.get_last_slot_in_epoch(epoch)
}

impl EpochScheduleParams {
    /// The epoch that `slot` belongs to.
    pub fn epoch_of(&self, slot: u64) -> (epoch: u64)
        requires
            epoch_lookup_ok(*self, slot),
        ensures
            epoch == epoch_of_slot(*self, slot),
    {
        call_get_epoch(self, slot)
    }

    /// The first slot of `epoch`.
    pub fn first_slot_in_epoch(&self, epoch: u64) -> (slot: u64)
        ensures
            slot == first_slot_of(*self, epoch),
    {
        call_get_first_slot_in_epoch(self, epoch)
    }

    /// The last slot of `epoch`.
    pub fn last_slot_in_epoch(&self, epoch: u64) -> (slot: u64)
        ensures
            slot == last_slot_of(*self, epoch),
    {
        call_get_last_slot_in_epoch(self, epoch)
    }
}

} // verus!
