//! Stake delegated to the vote account: decoding the stake accounts, and
//! summing what is active, activating, deactivating and locked.
use vstd::prelude::*;
#[allow(deprecated)]
use solana_sdk::account::{from_account, Account};
#[allow(deprecated)]
use solana_sdk::account_utils::StateMut;
use solana_sdk::pubkey::Pubkey;
#[allow(deprecated)]
use solana_sdk::stake::state::{Delegation, StakeStateV2};
#[allow(deprecated)]
use solana_sdk::stake_history::{StakeHistory, StakeHistoryEntry};
use solana_sdk::sysvar::clock::Clock;
use crate::keys::zero_key;

verus! {

/// Stake delegated to the vote account, by state.
#[derive(Clone, Copy, Debug, PartialEq, Eq)]
pub struct StakeState {
    pub activated_stake: u64,
    pub activating_stake: u64,
    pub deactivating_stake: u64,
    pub locked_stake: u64,
    pub activated_stake_accounts: u64,
    pub activating_stake_accounts: u64,
    pub deactivating_stake_accounts: u64,
}

/// The delegation and lockup of a stake account in the `Stake` state.
#[derive(Clone, Copy, Debug, PartialEq, Eq)]
pub struct DelegatedStake {
    pub stake: u64,
    pub activation_epoch: u64,
    pub deactivation_epoch: u64,
    pub custodian: [u8; 32],
    pub lockup_unix_timestamp: i64,
}

/// The state of a stake account, reduced to what the summary reads.
#[derive(Clone, Copy, Debug, PartialEq, Eq)]
pub enum StakeAccountState {
    Uninitialized,
    Initialized,
    Delegated(DelegatedStake),
    RewardsPool,
}

/// Why the stake summary could not be computed.
#[derive(Clone, Copy, Debug, PartialEq, Eq)]
pub enum StakeError {
    /// The clock sysvar account does not decode.
    InvalidClockAccount,
    /// The stake history sysvar account does not decode.
    InvalidStakeHistoryAccount,
    /// A stake account does not decode as a stake state.
    InvalidStakeAccount,
    /// The stake history is outside the range in which the warmup
    /// computation is known not to overflow for a delegation.
    HistoryOutOfRange,
    /// A total does not fit in a `u64`.
    Overflow,
}

/// One epoch of the stake history: (epoch, effective, activating, deactivating).
pub type HistoryEntry = (u64, u64, u64, u64);

#[verifier::external_type_specification]
#[verifier::external_body]
pub struct ExStakeHistory(StakeHistory);

/// Declared because `StakeHistory` dereferences to a vector of these; the
/// library reads entries only through `history_entries`.
#[verifier::external_type_specification]
#[verifier::external_body]
pub struct ExStakeHistoryEntry(StakeHistoryEntry);

/// The entries that a `StakeHistory` holds, in its own order.
pub uninterp spec fn history_entries(history: StakeHistory) -> Seq<HistoryEntry>;

/// What `StateMut::<StakeStateV2>::state` decodes (bincode) from an account's data.
pub uninterp spec fn stake_account_from_bytes(data: Seq<u8>) -> Option<StakeAccountState>;

/// The little-endian `u64` in the eight bytes of `data` from `at`.
pub open spec fn le_u64_at(data: Seq<u8>, at: int) -> u64 {
    (data[at] as int + data[at + 1] as int * 0x100 + data[at + 2] as int * 0x1_0000
        + data[at + 3] as int * 0x100_0000 + data[at + 4] as int * 0x1_0000_0000
        + data[at + 5] as int * 0x100_0000_0000 + data[at + 6] as int * 0x1_0000_0000_0000
        + data[at + 7] as int * 0x100_0000_0000_0000) as u64
}

/// The epoch of the `Clock` that `from_account` decodes (bincode, fixed-size
/// little-endian integers, trailing bytes allowed) from an account's data:
/// the clock is five 8-byte fields (slot, epoch start time, epoch, leader
/// schedule epoch, time), so any 40 bytes decode, with the epoch in bytes 16
/// to 23.
pub open spec fn clock_epoch_from_bytes(data: Seq<u8>) -> Option<u64> {
    if data.len() >= 40 {
        Some(le_u64_at(data, 16))
    } else {
        None
    }
}

/// The number of entries that a stake history's data announces.
pub open spec fn history_len_at(data: Seq<u8>) -> int {
    le_u64_at(data, 0) as int
}

/// The entries of the `StakeHistory` that `from_account` decodes (bincode as
/// above) from an account's data: an 8-byte count, then per entry four
/// 8-byte fields (epoch, effective, activating, deactivating); the data
/// decodes where it holds the count and every entry it announces.
pub open spec fn stake_history_from_bytes(data: Seq<u8>) -> Option<Seq<HistoryEntry>> {
    if data.len() >= 8 && 8 + 32 * history_len_at(data) <= data.len() {
        Some(Seq::new(history_len_at(data) as nat, |i: int| (
            le_u64_at(data, 8 + 32 * i),
            le_u64_at(data, 16 + 32 * i),
            le_u64_at(data, 24 + 32 * i),
            le_u64_at(data, 32 + 32 * i),
        )))
    } else {
        None
    }
}

/// What `Delegation::stake_activating_and_deactivating` returns as
/// (effective, activating, deactivating) for a delegation of `stake` from
/// `activation_epoch` to `deactivation_epoch`, at `target_epoch`.
pub uninterp spec fn stake_activation(
    stake: u64,
    activation_epoch: u64,
    deactivation_epoch: u64,
    target_epoch: u64,
    history: Seq<HistoryEntry>,
    new_rate_activation_epoch: Option<u64>,
) -> (u64, u64, u64);

/// Calls `StateMut::<StakeStateV2>::state` on an account holding `data`
/// (a bincode decoding), and keeps of the state what the summary reads.
/// The contract names the outcome.
#[verifier::external_body]
fn call_stake_state(data: &[u8]) -> (state: Option<StakeAccountState>)
    ensures
        state == stake_account_from_bytes(data@),
{
    let account = Account { data: data.to_vec(), ..Account::default() };
    match StateMut::<StakeStateV2>::state(&account) {
        Ok(StakeStateV2::Uninitialized) => Some(StakeAccountState::Uninitialized),
        Ok(StakeStateV2::Initialized(_)) => Some(StakeAccountState::Initialized),
        Ok(StakeStateV2::Stake(m, s, _)) => Some(StakeAccountState::Delegated(DelegatedStake {
            stake: s.delegation.stake, activation_epoch: s.delegation.activation_epoch,
            deactivation_epoch: s.delegation.deactivation_epoch,
            custodian: m.lockup.custodian.to_bytes(), lockup_unix_timestamp: m.lockup.unix_timestamp,
        })),
        Ok(StakeStateV2::RewardsPool) => Some(StakeAccountState::RewardsPool),
        Err(_) => None,
    }
}

/// Calls `from_account::<Clock>` on an account holding `data` (a bincode
/// decoding) and keeps the clock's epoch. The contract states the layout.
#[verifier::external_body]
fn call_clock_from_account(data: &[u8]) -> (epoch: Option<u64>)
    ensures
        epoch == clock_epoch_from_bytes(data@),
{
    let account = Account { data: data.to_vec(), ..Account::default() };
    from_account::<Clock, _>(&account).map(|clock| clock.epoch)
}

/// Calls `from_account::<StakeHistory>` on an account holding `data` (a
/// bincode decoding). The contract states the layout of the decoded entries.
#[verifier::external_body]
fn call_stake_history_from_account(data: &[u8]) -> (history: Option<StakeHistory>)
    ensures
        history.is_some() == stake_history_from_bytes(data@).is_some(),
        history matches Some(h) ==> history_entries(h) == stake_history_from_bytes(data@).unwrap(),
{
    let account = Account { data: data.to_vec(), ..Account::default() };
    from_account::<StakeHistory, _>(&account)
}

/// Calls `Deref::deref` on the history and hands out its entries in order,
/// each as (epoch, effective, activating, deactivating).
#[verifier::external_body]
fn call_history_entries(history: &StakeHistory) -> (entries: Vec<HistoryEntry>)
    ensures
        entries@ == history_entries(*history),
{
    history.iter().map(|(epoch, e)| (*epoch, e.effective, e.activating, e.deactivating)).collect()
}

/// Whether a history entry keeps a later warmup step of a delegation of
/// `stake` within range. The first step starts from no effective stake, so
/// its sum cannot overflow whatever its entry holds; every later step reads
/// the entry of an epoch after `activation_epoch` and before both
/// `target_epoch` and `deactivation_epoch`. Where such an entry has
/// activating stake, it must have `stake * effective <= activating * 2^65`.
pub open spec fn entry_in_range(
    stake: u64,
    activation_epoch: u64,
    deactivation_epoch: u64,
    target_epoch: u64,
    e: HistoryEntry,
) -> bool {
    !(activation_epoch < e.0 && e.0 < target_epoch && e.0 < deactivation_epoch && e.2 > 0)
        || stake * e.1 <= e.2 * 0x2_0000_0000_0000_0000int
}

/// Whether the history has an entry for `epoch`.
pub open spec fn has_entry(history: Seq<HistoryEntry>, epoch: u64) -> bool {
    exists|i: int| 0 <= i < history.len() && #[trigger] history[i].0 == epoch
}

/// Whether the warmup computation of a delegation stays within `u64`. It
/// takes no warmup step for a bootstrap stake, one deactivated at once, a
/// target epoch not after activation, or a history without an entry for the
/// activation epoch. Otherwise each step adds to the effective stake `c`
/// (below `stake`) a share of at most `(stake - c) / activating * effective
/// * 0.25` (with a relative rounding error below `2^-50`), or 1. The first
/// step starts from `c == 0`, so its sum is the share itself, which fits.
/// For a later step, `c` plus that share is at most the larger of `stake`
/// and `stake * effective / activating * 0.25 * (1 + 2^-50)`, which stays
/// below `2^64` where the entry is within range.
pub open spec fn warmup_in_range(
    stake: u64,
    activation_epoch: u64,
    deactivation_epoch: u64,
    target_epoch: u64,
    history: Seq<HistoryEntry>,
) -> bool {
    activation_epoch == u64::MAX || activation_epoch == deactivation_epoch || target_epoch <= activation_epoch
        || !has_entry(history, activation_epoch)
        || forall|i: int| 0 <= i < history.len()
            ==> #[trigger] entry_in_range(stake, activation_epoch, deactivation_epoch, target_epoch, history[i])
}

/// Calls `Delegation::stake_activating_and_deactivating` on a delegation with
/// these amounts and epochs (the voter key takes no part in it). The contract
/// names the (effective, activating, deactivating) result, which depends on
/// these arguments and on the history's entries alone. The method, in
/// `solana-stake-interface`, adds each warmup step's floating-point share to
/// the effective stake with a plain `+=`; the `requires` keeps to inputs on
/// which that sum cannot overflow (the rest of the computation saturates or
/// stays below its bounds). It is a sufficient bound, not the exact one:
/// where a later step's entry is out of range the method may still return.
#[verifier::external_body]
fn call_stake_activating_and_deactivating(
    stake: u64,
    activation_epoch: u64,
    deactivation_epoch: u64,
    target_epoch: u64,
    history: &StakeHistory,
    new_rate_activation_epoch: Option<u64>,
) -> (status: (u64, u64, u64))
    requires
        warmup_in_range(stake, activation_epoch, deactivation_epoch, target_epoch, history_entries(*history)),
    ensures
        status == stake_activation(stake, activation_epoch, deactivation_epoch, target_epoch,
            history_entries(*history), new_rate_activation_epoch),
{
    let mut delegation = Delegation::new(&Pubkey::default(), stake, activation_epoch);
    delegation.deactivation_epoch = deactivation_epoch;
    let s = delegation.stake_activating_and_deactivating(target_epoch, history, new_rate_activation_epoch);
    (s.effective, s.activating, s.deactivating)
}

/// The epoch from which the new warmup/cooldown rate applies.
pub const NEW_RATE_ACTIVATION_EPOCH: u64 = 520;

/// (effective, activating, deactivating) of a delegation at `epoch`.
pub open spec fn activation_of(d: DelegatedStake, epoch: u64, history: Seq<HistoryEntry>) -> (u64, u64, u64) {
    stake_activation(d.stake, d.activation_epoch, d.deactivation_epoch, epoch, history,
        Some(NEW_RATE_ACTIVATION_EPOCH))
}

/// Whether a delegation's effective stake counts as locked: it has a
/// custodian, its lockup lasts past `now`, and some of it is effective.
pub open spec fn is_locked(d: DelegatedStake, unlocked: Seq<u8>, now: i64, effective: u64) -> bool {
    d.custodian@ != unlocked && d.lockup_unix_timestamp > now && effective > 0
}

/// A summary with nothing in it.
pub open spec fn empty_stake_state() -> StakeState {
    StakeState {
        activated_stake: 0,
        activating_stake: 0,
        deactivating_stake: 0,
        locked_stake: 0,
        activated_stake_accounts: 0,
        activating_stake_accounts: 0,
        deactivating_stake_accounts: 0,
    }
}

/// `acc` with one more delegation counted; an error where its warmup is out
/// of range or a total would not fit in a `u64`.
pub open spec fn delegation_added(
    acc: StakeState,
    d: DelegatedStake,
    unlocked: Seq<u8>,
    epoch: u64,
    history: Seq<HistoryEntry>,
    now: i64,
) -> Result<StakeState, StakeError> {
    if !warmup_in_range(d.stake, d.activation_epoch, d.deactivation_epoch, epoch, history) {
        Err(StakeError::HistoryOutOfRange)
    } else {
    let status = activation_of(d, epoch, history);
    let effective = status.0;
    let activating = status.1;
    let deactivating = status.2;
    let locked = acc.locked_stake + if is_locked(d, unlocked, now, effective) { effective as int } else { 0 };
    let activated = acc.activated_stake + effective;
    let activating_total = acc.activating_stake + activating;
    let deactivating_total = acc.deactivating_stake + deactivating;
    let activated_accounts = acc.activated_stake_accounts + if effective > 0 { 1int } else { 0 };
    let activating_accounts = acc.activating_stake_accounts
        + if effective == 0 && activating > 0 { 1int } else { 0 };
    let deactivating_accounts = acc.deactivating_stake_accounts + if deactivating > 0 { 1int } else { 0 };
    if locked <= u64::MAX && activated <= u64::MAX && activating_total <= u64::MAX
        && deactivating_total <= u64::MAX && activated_accounts <= u64::MAX
        && activating_accounts <= u64::MAX && deactivating_accounts <= u64::MAX {
        Ok(StakeState {
            activated_stake: activated as u64,
            activating_stake: activating_total as u64,
            deactivating_stake: deactivating_total as u64,
            locked_stake: locked as u64,
            activated_stake_accounts: activated_accounts as u64,
            activating_stake_accounts: activating_accounts as u64,
            deactivating_stake_accounts: deactivating_accounts as u64,
        })
    } else {
        Err(StakeError::Overflow)
    }
    }
}

/// The summary of the stake accounts `accounts` (their data), in order: the
/// first account that does not decode is an error; delegated accounts add to
/// the totals (a lockup counts where its custodian is not the all-zero key);
/// the others are passed over.
pub open spec fn stake_totals(
    accounts: Seq<Seq<u8>>,
    epoch: u64,
    history: Seq<HistoryEntry>,
    now: i64,
) -> Result<StakeState, StakeError>
    decreases accounts.len(),
{
    if accounts.len() == 0 {
        Ok(empty_stake_state())
    } else {
        match stake_totals(accounts.drop_last(), epoch, history, now) {
            Err(e) => Err(e),
            Ok(acc) => match stake_account_from_bytes(accounts.last()) {
                None => Err(StakeError::InvalidStakeAccount),
                Some(StakeAccountState::Delegated(d)) => delegation_added(acc, d, zero_key(), epoch, history, now),
                Some(_) => Ok(acc),
            },
        }
    }
}

/// The stake summary from the raw accounts: the clock gives the epoch, the
/// stake history the cluster's warmup and cooldown, and each stake account
/// its delegation.
pub open spec fn stake_details_spec(
    accounts: Seq<Seq<u8>>,
    clock_data: Seq<u8>,
    history_data: Seq<u8>,
    now: i64,
) -> Result<StakeState, StakeError> {
    match clock_epoch_from_bytes(clock_data) {
        None => Err(StakeError::InvalidClockAccount),
        Some(epoch) => match stake_history_from_bytes(history_data) {
            None => Err(StakeError::InvalidStakeHistoryAccount),
            Some(history) => stake_totals(accounts, epoch, history, now),
        },
    }
}

/// Locked stake is part of the activated stake, and no more stake accounts
/// are counted than were given: accounts with effective stake and accounts
/// with only activating stake are counted apart, and so are the accounts with
/// deactivating stake.
pub proof fn lemma_stake_summary_bounds(
    accounts: Seq<Seq<u8>>,
    epoch: u64,
    history: Seq<HistoryEntry>,
    now: i64,
)
    ensures
        stake_totals(accounts, epoch, history, now) matches Ok(t) ==> {
            &&& t.locked_stake <= t.activated_stake
            &&& t.activated_stake_accounts + t.activating_stake_accounts <= accounts.len()
            &&& t.deactivating_stake_accounts <= accounts.len()
        },
    decreases accounts.len(),
{
    if accounts.len() > 0 {
        lemma_stake_summary_bounds(accounts.drop_last(), epoch, history, now);
    }
}

/// The sum of `f` over the delegated accounts among `accounts`.
pub open spec fn sum_over_delegations(accounts: Seq<Seq<u8>>, f: spec_fn(DelegatedStake) -> int) -> int
    decreases accounts.len(),
{
    if accounts.len() == 0 {
        0
    } else {
        sum_over_delegations(accounts.drop_last(), f) + match stake_account_from_bytes(accounts.last()) {
            Some(StakeAccountState::Delegated(d)) => f(d),
            _ => 0,
        }
    }
}

/// 1 where `b` holds, else 0.
pub open spec fn count_if(b: bool) -> int {
    if b { 1 } else { 0 }
}

/// A summary that comes out is made of sums over the delegated accounts:
/// effective, activating and deactivating stake, the effective stake of the
/// locked ones, and the numbers of accounts with effective stake, with only
/// activating stake, and with deactivating stake.
pub proof fn lemma_stake_totals_are_sums(
    accounts: Seq<Seq<u8>>,
    epoch: u64,
    history: Seq<HistoryEntry>,
    now: i64,
)
    ensures
        stake_totals(accounts, epoch, history, now) matches Ok(t) ==> {
            &&& t.activated_stake == sum_over_delegations(accounts,
                |d: DelegatedStake| activation_of(d, epoch, history).0 as int)
            &&& t.activating_stake == sum_over_delegations(accounts,
                |d: DelegatedStake| activation_of(d, epoch, history).1 as int)
            &&& t.deactivating_stake == sum_over_delegations(accounts,
                |d: DelegatedStake| activation_of(d, epoch, history).2 as int)
            &&& t.locked_stake == sum_over_delegations(accounts,
                |d: DelegatedStake| if is_locked(d, zero_key(), now, activation_of(d, epoch, history).0) {
                    activation_of(d, epoch, history).0 as int
                } else {
                    0
                })
            &&& t.activated_stake_accounts == sum_over_delegations(accounts,
                |d: DelegatedStake| count_if(activation_of(d, epoch, history).0 > 0))
            &&& t.activating_stake_accounts == sum_over_delegations(accounts,
                |d: DelegatedStake| count_if(activation_of(d, epoch, history).0 == 0
                    && activation_of(d, epoch, history).1 > 0))
            &&& t.deactivating_stake_accounts == sum_over_delegations(accounts,
                |d: DelegatedStake| count_if(activation_of(d, epoch, history).2 > 0))
        },
    decreases accounts.len(),
{
    if accounts.len() > 0 {
        lemma_stake_totals_are_sums(accounts.drop_last(), epoch, history, now);
    }
}

/// Once a prefix of the accounts gives an error, every longer sequence gives it.
proof fn lemma_stake_totals_error_sticks(
    accounts: Seq<Seq<u8>>,
    i: int,
    epoch: u64,
    history: Seq<HistoryEntry>,
    now: i64,
)
    requires
        0 <= i <= accounts.len(),
        stake_totals(accounts.take(i), epoch, history, now) is Err,
    ensures
        stake_totals(accounts, epoch, history, now) == stake_totals(accounts.take(i), epoch, history, now),
    decreases accounts.len() - i,
{
    if i < accounts.len() {
        let next = accounts.take(i + 1);
        assert(next.drop_last() =~= accounts.take(i));
        lemma_stake_totals_error_sticks(accounts, i + 1, epoch, history, now);
    } else {
        assert(accounts.take(i) =~= accounts);
    }
}

/// Whether two keys are the same.
fn same_key(a: &[u8; 32], b: &[u8; 32]) -> (same: bool)
    ensures
        same == (a@ == b@),
{
    let mut i: usize = 0;
    while i < 32
        invariant
            0 <= i <= 32,
            forall|j: int| 0 <= j < i ==> a@[j] == b@[j],
        decreases 32 - i,
    {
        if a[i] != b[i] {
            return false;
        }
        i = i + 1;
    }
    assert(a@ =~= b@);
    true
}

impl StakeState {
    /// A summary with nothing in it.
    pub fn new() -> (s: StakeState)
        ensures
            s == empty_stake_state(),
    {
        StakeState {
            activated_stake: 0,
            activating_stake: 0,
            deactivating_stake: 0,
            locked_stake: 0,
            activated_stake_accounts: 0,
            activating_stake_accounts: 0,
            deactivating_stake_accounts: 0,
        }
    }
}

/// Whether the warmup computation of `d` at `epoch` stays within range.
fn warmup_within_range(d: &DelegatedStake, epoch: u64, entries: &Vec<HistoryEntry>) -> (ok: bool)
    ensures
        ok == warmup_in_range(d.stake, d.activation_epoch, d.deactivation_epoch, epoch, entries@),
{
    if d.activation_epoch == u64::MAX || d.activation_epoch == d.deactivation_epoch || epoch <= d.activation_epoch {
        return true;
    }
    let mut found = false;
    let mut i: usize = 0;
    while i < entries.len()
        invariant
            0 <= i <= entries.len(),
            found == exists|j: int| 0 <= j < i && #[trigger] entries@[j].0 == d.activation_epoch,
        decreases entries.len() - i,
    {
        if entries[i].0 == d.activation_epoch {
            found = true;
        }
        i = i + 1;
    }
    if !found {
        return true;
    }
    let mut i: usize = 0;
    #[verifier::loop_isolation(false)]
    while i < entries.len()
        invariant
            0 <= i <= entries.len(),
            forall|j: int| 0 <= j < i ==> #[trigger] entry_in_range(d.stake, d.activation_epoch,
                d.deactivation_epoch, epoch, entries@[j]),
        decreases entries.len() - i,
    {
        let e = entries[i];
        if d.activation_epoch < e.0 && e.0 < epoch && e.0 < d.deactivation_epoch && e.2 > 0
            && e.2 < 0x8000_0000_0000_0000u64 {
            let stake = d.stake as u128;
            let effective = e.1 as u128;
            let activating = e.2 as u128;
            assert(stake * effective <= 0xffff_ffff_ffff_ffff * 0xffff_ffff_ffff_ffffu128) by (nonlinear_arith)
                requires stake <= 0xffff_ffff_ffff_ffff, effective <= 0xffff_ffff_ffff_ffff;
            assert(activating * 0x2_0000_0000_0000_0000u128 <= 0xffff_ffff_ffff_fffe_0000_0000_0000_0000u128)
                by (nonlinear_arith) requires activating < 0x8000_0000_0000_0000;
            if stake * effective > activating * 0x2_0000_0000_0000_0000u128 {
                assert(!entry_in_range(d.stake, d.activation_epoch, d.deactivation_epoch, epoch, entries@[i as int]));
                return false;
            }
        } else {
            proof {
                if e.2 >= 0x8000_0000_0000_0000u64 {
                    assert(d.stake * e.1 <= e.2 * 0x2_0000_0000_0000_0000int) by (nonlinear_arith)
                        requires d.stake <= 0xffff_ffff_ffff_ffffu64, e.1 <= 0xffff_ffff_ffff_ffffu64,
                            e.2 >= 0x8000_0000_0000_0000u64;
                }
            }
        }
        i = i + 1;
    }
    true
}

/// `acc` with the delegation `d` counted at `epoch`.
fn add_delegation(
    acc: StakeState,
    d: &DelegatedStake,
    unlocked: &[u8; 32],
    epoch: u64,
    history: &StakeHistory,
    entries: &Vec<HistoryEntry>,
    now: i64,
) -> (next: Result<StakeState, StakeError>)
    requires
        entries@ == history_entries(*history),
    ensures
        next == delegation_added(acc, *d, unlocked@, epoch, history_entries(*history), now),
{
    if !warmup_within_range(d, epoch, entries) {
        return Err(StakeError::HistoryOutOfRange);
    }
    let status = call_stake_activating_and_deactivating(d.stake, d.activation_epoch,
        d.deactivation_epoch, epoch, history, Some(NEW_RATE_ACTIVATION_EPOCH));
    let effective = status.0;
    let activating = status.1;
    let deactivating = status.2;
    let locked_add = if !same_key(&d.custodian, unlocked) && d.lockup_unix_timestamp > now && effective > 0 {
        effective
    } else {
        0
    };
    let overflow = Err(StakeError::Overflow);
    let locked = match acc.locked_stake.checked_add(locked_add) { Some(v) => v, None => return overflow };
    let activated = match acc.activated_stake.checked_add(effective) { Some(v) => v, None => return overflow };
    let activating_total = match acc.activating_stake.checked_add(activating) { Some(v) => v, None => return overflow };
    let deactivating_total = match acc.deactivating_stake.checked_add(deactivating) { Some(v) => v, None => return overflow };
    let activated_accounts = match acc.activated_stake_accounts.checked_add(if effective > 0 { 1 } else { 0 }) {
        Some(v) => v,
        None => return overflow,
    };
    let activating_accounts = match acc.activating_stake_accounts.checked_add(
        if effective == 0 && activating > 0 { 1 } else { 0 },
    ) {
        Some(v) => v,
        None => return overflow,
    };
    let deactivating_accounts = match acc.deactivating_stake_accounts.checked_add(
        if deactivating > 0 { 1 } else { 0 },
    ) {
        Some(v) => v,
        None => return overflow,
    };
    Ok(StakeState {
        activated_stake: activated,
        activating_stake: activating_total,
        deactivating_stake: deactivating_total,
        locked_stake: locked,
        activated_stake_accounts: activated_accounts,
        activating_stake_accounts: activating_accounts,
        deactivating_stake_accounts: deactivating_accounts,
    })
}

/// Sums the stake delegated through `stake_accounts` (the data of each stake
/// account delegated to the vote account), as of the epoch in the clock sysvar
/// account, with the cluster's stake history, at the time `unix_timestamp`.
pub fn compute_stake_details(
    stake_accounts: &Vec<Vec<u8>>,
    clock_account: &[u8],
    stake_history_account: &[u8],
    unix_timestamp: i64,
) -> (res: Result<StakeState, StakeError>)
    ensures
        res == stake_details_spec(stake_accounts.deep_view(), clock_account@, stake_history_account@,
            unix_timestamp),
{
    let epoch = match call_clock_from_account(clock_account) {
        Some(e) => e,
        None => return Err(StakeError::InvalidClockAccount),
    };
    let history = match call_stake_history_from_account(stake_history_account) {
        Some(h) => h,
        None => return Err(StakeError::InvalidStakeHistoryAccount),
    };
    let unlocked = match crate::keys::parse_account_key("11111111111111111111111111111111") {
        Ok(k) => k,
        Err(_) => {
            proof {
                reveal_strlit("11111111111111111111111111111111");
                assert("11111111111111111111111111111111"@ =~= crate::keys::all_ones_text());
            }
            vstd::pervasive::unreached()
        },
    };
    proof {
        reveal_strlit("11111111111111111111111111111111");
        assert("11111111111111111111111111111111"@ =~= crate::keys::all_ones_text());
    }
    let history_list = call_history_entries(&history);
    let ghost accounts = stake_accounts.deep_view();
    let ghost entries = history_entries(history);
    assert(stake_history_from_bytes(stake_history_account@) == Some(entries));
    let ghost whole = stake_details_spec(accounts, clock_account@, stake_history_account@, unix_timestamp);
    assert(whole == stake_totals(accounts, epoch, entries, unix_timestamp));
    let mut acc = StakeState::new();
    let n = stake_accounts.len();
    let mut i: usize = 0;
    assert(accounts.take(0) =~= Seq::<Seq<u8>>::empty());
    while i < n
        invariant
            n == stake_accounts.len(),
            accounts == stake_accounts.deep_view(),
            accounts.len() == n,
            entries == history_entries(history),
            history_list@ == entries,
            unlocked@ == zero_key(),
            whole == stake_details_spec(stake_accounts.deep_view(), clock_account@,
                stake_history_account@, unix_timestamp),
            whole == stake_totals(accounts, epoch, entries, unix_timestamp),
            0 <= i <= n,
            stake_totals(accounts.take(i as int), epoch, entries, unix_timestamp) == Ok::<StakeState, StakeError>(acc),
        decreases n - i,
    {
        let ghost next = accounts.take(i + 1);
        assert(next.drop_last() =~= accounts.take(i as int));
        assert(next.last() == stake_accounts[i as int]@);
        match call_stake_state(stake_accounts[i].as_slice()) {
            None => {
                proof {
                    assert(stake_totals(next, epoch, entries, unix_timestamp) is Err);
                    lemma_stake_totals_error_sticks(accounts, i + 1, epoch, entries, unix_timestamp);
                }
                return Err(StakeError::InvalidStakeAccount);
            },
            Some(StakeAccountState::Delegated(d)) => {
                match add_delegation(acc, &d, &unlocked, epoch, &history, &history_list, unix_timestamp) {
                    Ok(s) => {
                        acc = s;
                    },
                    Err(e) => {
                        proof {
                            lemma_stake_totals_error_sticks(accounts, i + 1, epoch, entries, unix_timestamp);
                        }
                        return Err(e);
                    },
                }
            },
            Some(_) => {},
        }
        i = i + 1;
    }
    assert(accounts.take(n as int) =~= accounts);
    Ok(acc)
}

} // verus!
