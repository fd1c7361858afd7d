use solana_validator_exporter::schedule::EpochScheduleParams;
use solana_validator_exporter::slots::{SlotError, SlotTracker};

fn schedule() -> EpochScheduleParams {
    EpochScheduleParams {
        slots_per_epoch: 1000,
        leader_schedule_slot_offset: 1000,
        warmup: false,
        first_normal_epoch: 0,
        first_normal_slot: 0,
    }
}

#[test]
fn tracker_starts_at_the_current_slot() {
    let t = SlotTracker::new(schedule(), 2_500, vec![2_010, 2_020]);
    assert_eq!(t.current_epoch, 2);
    assert_eq!(t.last_checked_slot, 2_500);
    assert_eq!(t.pending_slots(2_500), None);
    assert_eq!(t.pending_slots(2_503), Some((2_501, 2_503)));
}

#[test]
fn leader_slots_are_recognized() {
    let t = SlotTracker::new(schedule(), 2_500, vec![2_010, 2_020]);
    assert_eq!(t.check_slot(2_020), Ok(true));
    assert_eq!(t.check_slot(2_021), Ok(false));
}

#[test]
fn max_latency_tracks_the_highest_until_taken() {
    let mut t = SlotTracker::new(schedule(), 2_500, vec![]);
    t.record_vote_latency(3);
    t.record_vote_latency(7);
    t.record_vote_latency(2);
    assert_eq!(t.max_vote_latency, 7);
    assert_eq!(t.take_max_vote_latency(), 7);
    assert_eq!(t.max_vote_latency, 0);
    t.record_vote_latency(1);
    assert_eq!(t.take_max_vote_latency(), 1);
}

#[test]
fn epoch_change_caches_new_leader_slots() {
    let mut t = SlotTracker::new(schedule(), 2_999, vec![2_010]);
    let e = t.epoch_of(3_000);
    assert!(t.epoch_changed(e));
    t.install_epoch(e, vec![3_005]);
    assert_eq!(t.current_epoch, 3);
    assert_eq!(t.check_slot(3_005), Ok(true));
    assert_eq!(t.leader_slots_cache.get(&2), Some(&vec![2_010]));
    t.finish_slots(3_010);
    assert_eq!(t.last_checked_slot, 3_010);
}

#[test]
fn missing_cache_is_an_error() {
    let mut t = SlotTracker::new(schedule(), 2_999, vec![]);
    t.leader_slots_cache.clear();
    assert_eq!(t.check_slot(3_000), Err(SlotError::NoLeaderSlotsCached));
}

#[test]
fn a_round_across_an_epoch_leaves_the_new_epoch_cached() {
    let mut t = SlotTracker::new(schedule(), 2_990, vec![2_010]);
    let current = 3_004;
    let epoch = t.epoch_of(current);
    assert!(t.epoch_changed(epoch));
    t.install_epoch(epoch, vec![3_002]);
    assert_eq!(t.check_slot(3_002), Ok(true));
    t.finish_slots(current);
    assert_eq!(t.current_epoch, t.epoch_of(t.last_checked_slot));
    assert!(t.leader_slots_cache.contains_key(&3));
    assert!(t.leader_slots_cache.contains_key(&2));
}
