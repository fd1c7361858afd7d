use solana_validator_exporter::production::{block_production_summary, ProductionEntry};

fn entry(id: &str, slots: usize, produced: usize) -> ProductionEntry {
    ProductionEntry { identity: id.to_string(), leader_slots: slots, blocks_produced: produced }
}

#[test]
fn ours_and_the_total() {
    let entries = vec![entry("A", 10, 9), entry("ME", 8, 7), entry("B", 4, 4)];
    assert_eq!(block_production_summary(&"ME".to_string(), &entries), (8, 7, 20));
}

#[test]
fn unlisted_identity_has_nothing() {
    let entries = vec![entry("A", 10, 9)];
    assert_eq!(block_production_summary(&"ME".to_string(), &entries), (0, 0, 9));
    assert_eq!(block_production_summary(&"ME".to_string(), &vec![]), (0, 0, 0));
}
