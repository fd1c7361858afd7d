use solana_validator_exporter::rewards::{block_rewards_from_reply, BlockRewardsTracker, RewardsError};
use solana_validator_exporter::schedule::EpochScheduleParams;

fn schedule() -> EpochScheduleParams {
    EpochScheduleParams {
        slots_per_epoch: 1000,
        leader_schedule_slot_offset: 1000,
        warmup: false,
        first_normal_epoch: 0,
        first_normal_slot: 0,
    }
}

#[test]
fn first_reward_counts() {
    assert_eq!(block_rewards_from_reply(Ok(Some(vec![5000, 7]))), Ok(5000));
    assert_eq!(block_rewards_from_reply(Ok(Some(vec![]))), Ok(0));
}

#[test]
fn block_without_rewards_is_an_error() {
    assert_eq!(block_rewards_from_reply(Ok(None)), Err(RewardsError::MissingRewards));
}

#[test]
fn skipped_slot_earns_nothing() {
    let msg = "RPC response error -32007: Slot 123 was skipped, or missing due to ledger jump".to_string();
    assert_eq!(block_rewards_from_reply(Err(msg)), Ok(0));
}

#[test]
fn other_errors_pass_through() {
    let msg = "Block not available for slot 5".to_string();
    assert_eq!(block_rewards_from_reply(Err(msg.clone())), Err(RewardsError::Rpc(msg)));
}

#[test]
fn tracker_starts_before_the_epoch() {
    let t = BlockRewardsTracker::new(schedule(), 5_432, vec![5_000, 5_100]).unwrap();
    assert_eq!(t.current_epoch, 5);
    assert_eq!(t.last_processed_slot, 4_999);
    assert_eq!(t.total_block_rewards, 0);
    assert_eq!(t.get_last_block_rewards_avg(), 0);
}

#[test]
fn tracker_in_epoch_zero_is_refused() {
    assert!(matches!(
        BlockRewardsTracker::new(schedule(), 10, vec![]),
        Err(RewardsError::EpochStartsAtSlotZero)
    ));
}

#[test]
fn at_most_ten_due_slots_per_cycle() {
    let slots: Vec<u64> = (0..20).map(|i| 5_000 + i * 10).collect();
    let t = BlockRewardsTracker::new(schedule(), 5_432, slots).unwrap();
    let due = t.slots_to_fetch(5_105);
    assert_eq!(due, vec![5_000, 5_010, 5_020, 5_030, 5_040, 5_050, 5_060, 5_070, 5_080, 5_090]);
    let fewer = t.slots_to_fetch(5_025);
    assert_eq!(fewer, vec![5_000, 5_010, 5_020]);
}

#[test]
fn cycle_totals_positive_rewards_and_moves_the_mark() {
    let mut t = BlockRewardsTracker::new(schedule(), 5_432, vec![5_000, 5_100, 5_200]).unwrap();
    let due = t.slots_to_fetch(5_150);
    assert_eq!(due, vec![5_000, 5_100]);
    t.apply_cycle(&vec![Some(100), None], 5_150);
    assert_eq!(t.total_block_rewards, 100);
    assert_eq!(t.last_processed_slot, 5_150);
    assert_eq!(t.slots_to_fetch(5_999), vec![5_200]);
    t.apply_cycle(&vec![Some(0)], 9_999);
    assert_eq!(t.total_block_rewards, 100);
    assert_eq!(t.last_processed_slot, 5_999);
    assert_eq!(t.recent_block_rewards, vec![100]);
}

#[test]
fn average_of_the_last_four() {
    let mut t = BlockRewardsTracker::new(schedule(), 5_432, (5_001..=5_006).collect()).unwrap();
    assert_eq!(t.slots_to_fetch(5_004), vec![5_001, 5_002, 5_003, 5_004]);
    t.apply_cycle(&vec![Some(10), Some(20), Some(-5), Some(30)], 5_004);
    assert_eq!(t.get_last_block_rewards_avg(), 20);
    assert_eq!(t.slots_to_fetch(5_006), vec![5_005, 5_006]);
    t.apply_cycle(&vec![Some(40), Some(51)], 5_006);
    assert_eq!(t.get_last_block_rewards_avg(), (20 + 30 + 40 + 51) / 4);
    assert_eq!(t.total_block_rewards, 151);
}

#[test]
fn only_the_last_ten_rewards_are_kept() {
    let mut t = BlockRewardsTracker::new(schedule(), 5_432, (5_001..=5_013).collect()).unwrap();
    assert_eq!(t.slots_to_fetch(5_432).len(), 10);
    t.apply_cycle(&(1..=10).map(Some).collect(), 5_432);
    assert_eq!(t.last_processed_slot, 5_010);
    assert_eq!(t.slots_to_fetch(5_432), vec![5_011, 5_012, 5_013]);
    t.apply_cycle(&(11..=13).map(Some).collect(), 5_432);
    assert_eq!(t.recent_block_rewards, (4..=13).collect::<Vec<i64>>());
    assert_eq!(t.total_block_rewards, (1..=13).sum::<i64>());
    assert_eq!(t.last_processed_slot, 5_432);
}

#[test]
fn new_epoch_resets_the_totals() {
    let mut t = BlockRewardsTracker::new(schedule(), 5_432, vec![5_000]).unwrap();
    t.apply_cycle(&vec![Some(7)], 5_432);
    assert_eq!(t.total_block_rewards, 7);
    assert!(t.epoch_changed(t.epoch_of(6_001)));
    assert!(!t.epoch_changed(t.epoch_of(5_999)));
    assert_eq!(t.begin_epoch(6, Some(vec![6_004])), Ok(6_000));
    assert_eq!(t.total_block_rewards, 0);
    assert_eq!(t.recent_block_rewards, Vec::<i64>::new());
    assert_eq!(t.last_processed_slot, 5_999);
    assert_eq!(t.slots_to_fetch(6_010), vec![6_004]);
}

#[test]
fn new_epoch_without_a_schedule_keeps_the_old_slots() {
    let mut t = BlockRewardsTracker::new(schedule(), 5_432, vec![5_000]).unwrap();
    assert_eq!(t.begin_epoch(6, None), Ok(6_000));
    assert_eq!(t.leader_slots, vec![5_000]);
    assert_eq!(t.slots_to_fetch(6_500), Vec::<u64>::new());
}

#[test]
fn capped_cycle_stops_the_mark_at_the_last_slot_fetched() {
    let slots: Vec<u64> = (0..11).map(|i| 5_010 + i * 10).collect();
    let mut t = BlockRewardsTracker::new(schedule(), 5_432, slots).unwrap();
    let due = t.slots_to_fetch(5_200);
    assert_eq!(due.len(), 10);
    assert_eq!(due[9], 5_100);
    t.apply_cycle(&due.iter().map(|_| Some(1)).collect(), 5_200);
    assert_eq!(t.last_processed_slot, 5_100);
    assert_eq!(t.total_block_rewards, 10);
    assert_eq!(t.slots_to_fetch(5_200), vec![5_110]);
    t.apply_cycle(&vec![Some(1)], 5_200);
    assert_eq!(t.total_block_rewards, 11);
    assert_eq!(t.last_processed_slot, 5_200);
    assert_eq!(t.slots_to_fetch(5_999), Vec::<u64>::new());
}

#[test]
fn average_reads_only_the_recent_list() {
    let mut t = BlockRewardsTracker::new(schedule(), 5_432, vec![]).unwrap();
    t.recent_block_rewards = vec![10, 20, 30, 40, 50];
    assert_eq!(t.get_last_block_rewards_avg(), 35);
    t.recent_block_rewards = vec![7, 8];
    assert_eq!(t.get_last_block_rewards_avg(), 7);
    t.recent_block_rewards = vec![-7, 2];
    assert_eq!(t.get_last_block_rewards_avg(), -2);
}

#[test]
fn begin_epoch_at_slot_zero_is_refused() {
    let mut t = BlockRewardsTracker::new(schedule(), 5_432, vec![]).unwrap();
    assert_eq!(t.begin_epoch(0, Some(vec![3])), Err(RewardsError::EpochStartsAtSlotZero));
    assert_eq!(t.current_epoch, 0);
    assert_eq!(t.last_processed_slot, 4_999);
    assert_eq!(t.leader_slots, Vec::<u64>::new());
}

#[test]
fn leader_slots_are_kept_once_each_in_rising_order() {
    let t = BlockRewardsTracker::new(schedule(), 5_432, vec![5_300, 5_010, 5_300, 5_200, 5_010]).unwrap();
    assert_eq!(t.leader_slots, vec![5_010, 5_200, 5_300]);
}

#[test]
fn unordered_leader_slots_are_each_counted_once() {
    let mut slots: Vec<u64> = (5_011..=5_020).collect();
    slots.push(5_005);
    let mut t = BlockRewardsTracker::new(schedule(), 5_432, slots).unwrap();
    let due = t.slots_to_fetch(5_100);
    assert_eq!(due, vec![5_005, 5_011, 5_012, 5_013, 5_014, 5_015, 5_016, 5_017, 5_018, 5_019]);
    t.apply_cycle(&due.iter().map(|_| Some(1)).collect(), 5_100);
    assert_eq!(t.last_processed_slot, 5_019);
    assert_eq!(t.total_block_rewards, 10);
    assert_eq!(t.slots_to_fetch(5_100), vec![5_020]);
    t.apply_cycle(&vec![Some(1)], 5_100);
    assert_eq!(t.total_block_rewards, 11);
    assert_eq!(t.last_processed_slot, 5_100);
    assert_eq!(t.slots_to_fetch(5_999), Vec::<u64>::new());
}

#[test]
fn the_mark_never_moves_back() {
    let mut t = BlockRewardsTracker::new(schedule(), 5_432, vec![5_100]).unwrap();
    t.apply_cycle(&vec![Some(5)], 5_200);
    assert_eq!(t.last_processed_slot, 5_200);
    assert_eq!(t.slots_to_fetch(5_150), Vec::<u64>::new());
    t.apply_cycle(&vec![], 5_150);
    assert_eq!(t.last_processed_slot, 5_200);
    assert_eq!(t.total_block_rewards, 5);
}

#[test]
fn slots_past_the_epoch_are_not_fetched() {
    let mut t = BlockRewardsTracker::new(schedule(), 5_432, vec![5_990, 6_010]).unwrap();
    assert_eq!(t.slots_to_fetch(6_100), vec![5_990]);
    t.apply_cycle(&vec![Some(2)], 6_100);
    assert_eq!(t.last_processed_slot, 5_999);
}

