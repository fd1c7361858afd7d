use solana_validator_exporter::text::{contains_text, same_text};

#[test]
fn finds_text_anywhere() {
    assert!(contains_text("Slot 5 was skipped, or missing", "skipped"));
    assert!(contains_text("skipped", "skipped"));
    assert!(!contains_text("skip", "skipped"));
    assert!(contains_text("abc", ""));
    assert!(!contains_text("Block not available", "skipped"));
}

#[test]
fn compares_text() {
    assert!(same_text("vote", "vote"));
    assert!(!same_text("vote", "votes"));
    assert!(!same_text("vote", "Vote"));
}
