use solana_validator_exporter::credits::{latest_epoch_credits, vote_credit_rank, VoteAccountCredits};

fn account(key: &str, credits: &[(u64, u64, u64)]) -> VoteAccountCredits {
    VoteAccountCredits { vote_pubkey: key.to_string(), epoch_credits: credits.to_vec() }
}

#[test]
fn credits_are_those_of_the_latest_epoch() {
    assert_eq!(latest_epoch_credits(&vec![(1, 100, 0), (2, 250, 100)]), 150);
    assert_eq!(latest_epoch_credits(&vec![]), 0);
    assert_eq!(latest_epoch_credits(&vec![(2, 5, 9)]), 0);
}

#[test]
fn rank_counts_accounts_with_more_credits() {
    let accounts = vec![
        account("A", &[(7, 1_000, 900)]),
        account("B", &[(7, 2_000, 1_500)]),
        account("US", &[(7, 3_000, 2_800)]),
        account("C", &[(7, 500, 0)]),
    ];
    assert_eq!(vote_credit_rank(&accounts, &"US".to_string()), (3, 200));
    assert_eq!(vote_credit_rank(&accounts, &"B".to_string()), (1, 500));
    assert_eq!(vote_credit_rank(&accounts, &"C".to_string()), (2, 500));
}

#[test]
fn ties_keep_the_listed_order() {
    let accounts = vec![account("A", &[(7, 10, 0)]), account("US", &[(7, 10, 0)]), account("B", &[(7, 10, 0)])];
    assert_eq!(vote_credit_rank(&accounts, &"US".to_string()), (2, 10));
    assert_eq!(vote_credit_rank(&accounts, &"B".to_string()), (3, 10));
}

#[test]
fn unlisted_account_has_no_rank() {
    let accounts = vec![account("A", &[(7, 10, 0)])];
    assert_eq!(vote_credit_rank(&accounts, &"US".to_string()), (0, 0));
    assert_eq!(vote_credit_rank(&vec![], &"US".to_string()), (0, 0));
}
