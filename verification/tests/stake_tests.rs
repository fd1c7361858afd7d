#![allow(deprecated)]
use solana_sdk::account::Account;
use solana_sdk::pubkey::Pubkey;
use solana_sdk::stake::stake_flags::StakeFlags;
use solana_sdk::stake::state::{Delegation, Lockup, Meta, Stake, StakeStateV2};
use solana_sdk::stake_history::{StakeHistory, StakeHistoryEntry};
use solana_sdk::sysvar::clock::Clock;
use solana_validator_exporter::stake::{compute_stake_details, StakeError, StakeState};

fn clock_data(epoch: u64) -> Vec<u8> {
    let clock = Clock { slot: 1, epoch_start_timestamp: 0, epoch, leader_schedule_epoch: epoch + 1, unix_timestamp: 0 };
    Account::new_data(1, &clock, &Pubkey::default()).unwrap().data
}

fn history_data(entries: &[(u64, u64, u64, u64)]) -> Vec<u8> {
    let mut history = StakeHistory::default();
    for &(epoch, effective, activating, deactivating) in entries {
        history.add(epoch, StakeHistoryEntry { effective, activating, deactivating });
    }
    Account::new_data(1, &history, &Pubkey::default()).unwrap().data
}

fn stake_data(stake: u64, activation: u64, deactivation: u64, custodian: Pubkey, lockup_ts: i64) -> Vec<u8> {
    let mut delegation = Delegation::new(&Pubkey::new_unique(), stake, activation);
    delegation.deactivation_epoch = deactivation;
    let meta = Meta {
        lockup: Lockup { unix_timestamp: lockup_ts, epoch: 0, custodian },
        ..Meta::default()
    };
    let state = StakeStateV2::Stake(meta, Stake { delegation, credits_observed: 0 }, StakeFlags::empty());
    Account::new_data(1, &state, &Pubkey::default()).unwrap().data
}

fn initialized_data() -> Vec<u8> {
    Account::new_data(1, &StakeStateV2::Initialized(Meta::default()), &Pubkey::default()).unwrap().data
}

#[test]
fn fully_active_stake_is_counted_as_activated() {
    let accounts = vec![stake_data(1000, 10, u64::MAX, Pubkey::default(), 0)];
    let res = compute_stake_details(&accounts, &clock_data(600), &history_data(&[]), 100).unwrap();
    assert_eq!(res.activated_stake, 1000);
    assert_eq!(res.activating_stake, 0);
    assert_eq!(res.deactivating_stake, 0);
    assert_eq!(res.locked_stake, 0);
    assert_eq!(res.activated_stake_accounts, 1);
    assert_eq!(res.activating_stake_accounts, 0);
    assert_eq!(res.deactivating_stake_accounts, 0);
}

#[test]
fn stake_activating_this_epoch_counts_as_activating() {
    let accounts = vec![stake_data(500, 600, u64::MAX, Pubkey::default(), 0)];
    let res = compute_stake_details(&accounts, &clock_data(600), &history_data(&[]), 100).unwrap();
    assert_eq!(res.activated_stake, 0);
    assert_eq!(res.activating_stake, 500);
    assert_eq!(res.activating_stake_accounts, 1);
    assert_eq!(res.activated_stake_accounts, 0);
}

#[test]
fn stake_deactivating_this_epoch_counts_both_ways() {
    let accounts = vec![stake_data(700, 10, 600, Pubkey::default(), 0)];
    let res = compute_stake_details(&accounts, &clock_data(600), &history_data(&[]), 100).unwrap();
    assert_eq!(res.activated_stake, 700);
    assert_eq!(res.deactivating_stake, 700);
    assert_eq!(res.activated_stake_accounts, 1);
    assert_eq!(res.deactivating_stake_accounts, 1);
}

#[test]
fn lockup_with_custodian_in_the_future_is_locked() {
    let custodian = Pubkey::new_unique();
    let accounts = vec![
        stake_data(1000, 10, u64::MAX, custodian, 200),
        stake_data(300, 10, u64::MAX, custodian, 50),
        stake_data(200, 10, u64::MAX, Pubkey::default(), 500),
    ];
    let res = compute_stake_details(&accounts, &clock_data(600), &history_data(&[]), 100).unwrap();
    assert_eq!(res.locked_stake, 1000);
    assert_eq!(res.activated_stake, 1500);
    assert_eq!(res.activated_stake_accounts, 3);
}

#[test]
fn initialized_accounts_are_passed_over() {
    let accounts = vec![initialized_data(), stake_data(42, 10, u64::MAX, Pubkey::default(), 0)];
    let res = compute_stake_details(&accounts, &clock_data(600), &history_data(&[]), 0).unwrap();
    assert_eq!(res.activated_stake, 42);
    assert_eq!(res.activated_stake_accounts, 1);
}

#[test]
fn no_accounts_give_an_empty_summary() {
    let res = compute_stake_details(&vec![], &clock_data(3), &history_data(&[]), 0).unwrap();
    assert_eq!(res, StakeState::new());
}

#[test]
fn partly_warmed_up_stake_follows_the_history() {
    // Cluster: 1000 effective and 1000 activating at epoch 599; the account
    // delegated 1000 at epoch 599 gets a share of the warmup at epoch 600.
    let accounts = vec![stake_data(1000, 599, u64::MAX, Pubkey::default(), 0)];
    let history = history_data(&[(599, 1000, 1000, 0)]);
    let res = compute_stake_details(&accounts, &clock_data(600), &history, 0).unwrap();
    assert!(res.activated_stake > 0 && res.activated_stake < 1000);
    assert_eq!(res.activated_stake + res.activating_stake, 1000);
    assert_eq!(res.activated_stake_accounts, 1);
}

#[test]
fn undecodable_stake_account_is_an_error() {
    let accounts = vec![stake_data(1, 10, u64::MAX, Pubkey::default(), 0), vec![9, 9]];
    let res = compute_stake_details(&accounts, &clock_data(600), &history_data(&[]), 0);
    assert_eq!(res, Err(StakeError::InvalidStakeAccount));
}

#[test]
fn undecodable_clock_is_an_error() {
    let res = compute_stake_details(&vec![], &[1, 2, 3], &history_data(&[]), 0);
    assert_eq!(res, Err(StakeError::InvalidClockAccount));
}

#[test]
fn undecodable_history_is_an_error() {
    let res = compute_stake_details(&vec![], &clock_data(1), &[1, 2, 3], 0);
    assert_eq!(res, Err(StakeError::InvalidStakeHistoryAccount));
}

#[test]
fn totals_past_u64_are_an_overflow() {
    let accounts = vec![
        stake_data(u64::MAX, 10, u64::MAX, Pubkey::default(), 0),
        stake_data(1, 10, u64::MAX, Pubkey::default(), 0),
    ];
    let res = compute_stake_details(&accounts, &clock_data(600), &history_data(&[]), 0);
    assert_eq!(res, Err(StakeError::Overflow));
}

#[test]
fn warmup_out_of_range_is_refused() {
    // The second warmup step reads one lamport activating against a huge
    // effective stake: its share would push the sum past u64, so the account
    // is refused rather than computed.
    let accounts = vec![stake_data(1 << 40, 598, u64::MAX, Pubkey::default(), 0)];
    let history = history_data(&[(598, 1, 1, 0), (599, u64::MAX, 1, 0)]);
    let res = compute_stake_details(&accounts, &clock_data(600), &history, 0);
    assert_eq!(res, Err(StakeError::HistoryOutOfRange));
}

#[test]
fn first_warmup_step_needs_no_range_check() {
    // The first step starts from nothing effective, so even a huge share fits:
    // the whole stake is effective after it.
    let accounts = vec![stake_data(100, 5, u64::MAX, Pubkey::default(), 0)];
    let history = history_data(&[(5, u64::MAX, 1, 0)]);
    let res = compute_stake_details(&accounts, &clock_data(6), &history, 0).unwrap();
    assert_eq!(res.activated_stake, 100);
    assert_eq!(res.activating_stake, 0);
    assert_eq!(res.activated_stake_accounts, 1);
}

#[test]
fn activated_stake_needs_no_history_check() {
    // Activated long before the history begins, and the target epoch is
    // later: entries outside the warmup span are not read.
    let accounts = vec![stake_data(1 << 40, 10, u64::MAX, Pubkey::default(), 0)];
    let history = history_data(&[(599, u64::MAX, 1, 0)]);
    let res = compute_stake_details(&accounts, &clock_data(600), &history, 0).unwrap();
    assert_eq!(res.activated_stake, 1 << 40);
}

#[test]
fn clock_epoch_is_read_from_its_place_in_the_data() {
    let mut clock = vec![0u8; 40];
    clock[16..24].copy_from_slice(&7u64.to_le_bytes());
    let accounts = vec![stake_data(1000, 6, u64::MAX, Pubkey::default(), 0)];
    let history = history_data(&[(6, 5000, 1000, 0)]);
    // In epoch 7 the stake has gone through its first warmup step.
    let at_7 = compute_stake_details(&accounts, &clock, &history, 0).unwrap();
    assert_eq!(at_7, compute_stake_details(&accounts, &clock_data(7), &history, 0).unwrap());
    assert_eq!(compute_stake_details(&accounts, &clock[..39], &history, 0), Err(StakeError::InvalidClockAccount));
    // Bytes after the clock are allowed.
    let mut longer = clock.clone();
    longer.extend_from_slice(&[9, 9, 9]);
    assert_eq!(compute_stake_details(&accounts, &longer, &history, 0).unwrap(), at_7);
}

#[test]
fn stake_history_is_a_count_then_its_entries() {
    let mut history = Vec::new();
    history.extend_from_slice(&1u64.to_le_bytes());
    for v in [6u64, 5000, 1000, 0] {
        history.extend_from_slice(&v.to_le_bytes());
    }
    assert_eq!(history, history_data(&[(6, 5000, 1000, 0)]));
    let accounts = vec![stake_data(1000, 6, u64::MAX, Pubkey::default(), 0)];
    assert_eq!(
        compute_stake_details(&accounts, &clock_data(7), &history, 0),
        compute_stake_details(&accounts, &clock_data(7), &history_data(&[(6, 5000, 1000, 0)]), 0)
    );
    assert_eq!(
        compute_stake_details(&accounts, &clock_data(7), &history[..39], 0),
        Err(StakeError::InvalidStakeHistoryAccount)
    );
}
