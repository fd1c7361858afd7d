use std::str::FromStr;
use solana_sdk::pubkey::Pubkey;
use solana_validator_exporter::keys::{i64_le_bytes, parse_account_key, tip_distribution_account, KeyError};

#[test]
fn system_key_decodes_to_zeros() {
    assert_eq!(parse_account_key("11111111111111111111111111111111"), Ok([0u8; 32]));
}

#[test]
fn real_key_decodes() {
    let text = "Vote111111111111111111111111111111111111111";
    let expected = Pubkey::from_str(text).unwrap().to_bytes();
    assert_eq!(parse_account_key(text), Ok(expected));
    assert_ne!(expected, [0u8; 32]);
}

#[test]
fn bad_key_is_refused() {
    assert_eq!(parse_account_key("not a key!"), Err(KeyError::InvalidPubkey));
    assert_eq!(parse_account_key(""), Err(KeyError::InvalidPubkey));
}

#[test]
fn epoch_bytes_are_little_endian() {
    assert_eq!(i64_le_bytes(1), vec![1, 0, 0, 0, 0, 0, 0, 0]);
    assert_eq!(i64_le_bytes(0x0102), vec![2, 1, 0, 0, 0, 0, 0, 0]);
    assert_eq!(i64_le_bytes(-1), vec![255; 8]);
    assert_eq!(i64_le_bytes(700), 700i64.to_le_bytes().to_vec());
}

#[test]
fn tip_distribution_account_is_the_program_address() {
    let vote = "Vote111111111111111111111111111111111111111";
    let vote_key = Pubkey::from_str(vote).unwrap();
    let program = Pubkey::from_str("4R3gSG8BpU4t19KYj8CfnbtRpnT8gtk4dvTHxVRwc2r7").unwrap();
    let epoch: i64 = 812;
    let (expected, _) = Pubkey::find_program_address(
        &[b"TIP_DISTRIBUTION_ACCOUNT".as_ref(), vote_key.to_bytes().as_ref(), epoch.to_le_bytes().as_ref()],
        &program,
    );
    let got = tip_distribution_account(vote, epoch).unwrap();
    assert_eq!(got, expected.to_bytes());
    assert_ne!(got, vote_key.to_bytes());
    assert_ne!(got, program.to_bytes());
}

#[test]
fn tip_distribution_account_needs_a_valid_vote_key() {
    assert_eq!(tip_distribution_account("bad", 1), Err(KeyError::InvalidPubkey));
}
