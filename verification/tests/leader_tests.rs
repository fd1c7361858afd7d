use solana_validator_exporter::leader::{
    average_slot_time_ms, leader_slots_for, ms_to_next_slot, next_leader_slot, LeaderError, NO_NEXT_LEADER_SLOT,
};

#[test]
fn leader_slots_are_made_absolute() {
    let schedule = Some(vec![("OTHER".to_string(), vec![1, 2]), ("ME".to_string(), vec![0, 4, 5])]);
    assert_eq!(leader_slots_for(&"ME".to_string(), 1_000, &schedule), Ok(vec![1_000, 1_004, 1_005]));
    assert_eq!(leader_slots_for(&"NOBODY".to_string(), 1_000, &schedule), Ok(vec![]));
}

#[test]
fn missing_schedule_is_an_error() {
    assert_eq!(leader_slots_for(&"ME".to_string(), 0, &None), Err(LeaderError::MissingSchedule));
}

#[test]
fn next_slot_is_the_smallest_ahead() {
    assert_eq!(next_leader_slot(100, &vec![150, 90, 120, 100, 300]), Some(120));
    assert_eq!(next_leader_slot(500, &vec![150, 90]), None);
    assert_eq!(next_leader_slot(0, &vec![]), None);
}

#[test]
fn average_slot_time_from_samples() {
    assert_eq!(average_slot_time_ms(&vec![(150, 60), (150, 60)]), 400);
    assert_eq!(average_slot_time_ms(&vec![(160, 60)]), 375);
    assert_eq!(average_slot_time_ms(&vec![]), 400);
    assert_eq!(average_slot_time_ms(&vec![(0, 60)]), 400);
}

#[test]
fn time_to_next_slot() {
    assert_eq!(ms_to_next_slot(100, Some(110), &vec![(160, 60)]), 3_750);
    assert_eq!(ms_to_next_slot(100, None, &vec![]), NO_NEXT_LEADER_SLOT);
    assert_eq!(ms_to_next_slot(100, Some(101), &vec![]), 400);
}
