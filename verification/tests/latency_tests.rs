use solana_validator_exporter::latency::{highest_lockout_slot, vote_latency_in_block, InstructionView, TransactionView};

fn vote_instruction(slots: Vec<Option<u64>>) -> InstructionView {
    InstructionView { program: Some("vote".to_string()), lockout_slots: Some(slots) }
}

fn tx(keys: &[&str], instructions: Vec<InstructionView>) -> Option<TransactionView> {
    Some(TransactionView { account_keys: keys.iter().map(|k| k.to_string()).collect(), instructions })
}

#[test]
fn latency_is_slot_less_highest_lockout() {
    let id = "ID".to_string();
    let vote = "VOTE".to_string();
    let txs = vec![tx(&["ID", "VOTE"], vec![vote_instruction(vec![Some(95), Some(98), Some(97)])])];
    assert_eq!(vote_latency_in_block(100, &id, &vote, &Some(txs)), Some(2));
}

#[test]
fn other_validators_votes_are_ignored() {
    let id = "ID".to_string();
    let vote = "VOTE".to_string();
    let txs = vec![
        tx(&["OTHER", "VOTE"], vec![vote_instruction(vec![Some(99)])]),
        tx(&["ID", "OTHERVOTE"], vec![vote_instruction(vec![Some(99)])]),
        None,
        tx(&["VOTE", "X", "ID"], vec![vote_instruction(vec![Some(90)])]),
    ];
    assert_eq!(vote_latency_in_block(100, &id, &vote, &Some(txs)), Some(10));
}

#[test]
fn non_vote_and_empty_towers_are_skipped() {
    let id = "ID".to_string();
    let vote = "VOTE".to_string();
    let txs = vec![tx(
        &["ID", "VOTE"],
        vec![
            InstructionView { program: Some("system".to_string()), lockout_slots: Some(vec![Some(50)]) },
            InstructionView { program: None, lockout_slots: Some(vec![Some(50)]) },
            vote_instruction(vec![]),
            vote_instruction(vec![None, Some(0)]),
            InstructionView { program: Some("vote".to_string()), lockout_slots: None },
            vote_instruction(vec![Some(80)]),
        ],
    )];
    assert_eq!(vote_latency_in_block(100, &id, &vote, &Some(txs)), Some(20));
}

#[test]
fn no_vote_gives_none() {
    let id = "ID".to_string();
    let vote = "VOTE".to_string();
    assert_eq!(vote_latency_in_block(100, &id, &vote, &None), None);
    assert_eq!(vote_latency_in_block(100, &id, &vote, &Some(vec![])), None);
}

#[test]
fn lockout_above_the_slot_saturates_at_zero() {
    let id = "ID".to_string();
    let vote = "VOTE".to_string();
    let txs = vec![tx(&["ID", "VOTE"], vec![vote_instruction(vec![Some(150)])])];
    assert_eq!(vote_latency_in_block(100, &id, &vote, &Some(txs)), Some(0));
}

#[test]
fn highest_lockout_ignores_missing_slots() {
    assert_eq!(highest_lockout_slot(&vec![None, Some(3), Some(9), None, Some(4)]), 9);
    assert_eq!(highest_lockout_slot(&vec![]), 0);
}
