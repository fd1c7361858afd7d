//! Account keys: parsing base58 text, and deriving the Jito tip distribution account.
use vstd::prelude::*;
use std::str::FromStr;
use vstd::string::StringSliceAdditionalSpecFns;
use vstd::string::StrSliceExecFns;
use solana_sdk::pubkey::Pubkey;

verus! {

/// Why a key could not be had.
#[derive(Clone, Copy, Debug, PartialEq, Eq)]
pub enum KeyError {
    /// The text is not a base58 encoding of 32 bytes.
    InvalidPubkey,
    /// No bump seed gives an address off the curve.
    NoProgramAddress,
}

/// The bytes that `Pubkey::from_str` decodes from `text`, if it accepts it.
pub uninterp spec fn pubkey_from_text(text: Seq<char>) -> Option<Seq<u8>>;

/// Thirty-two `'1'`s: the base58 text of the all-zero key.
pub open spec fn all_ones_text() -> Seq<char> {
    Seq::new(32, |i: int| '1')
}

/// The all-zero key.
pub open spec fn zero_key() -> Seq<u8> {
    Seq::new(32, |i: int| 0u8)
}

/// Calls `Pubkey::from_str` (base58 decoding into 32 bytes). The contract
/// names the outcome, and states the two cases the library relies on: each
/// leading `'1'` is a zero byte, so thirty-two of them decode to the
/// all-zero key; and the tip program's text is a base58 encoding of 32 bytes.
/// Which bytes that text decodes to is left to the name.
#[verifier::external_body]
fn call_pubkey_from_str(text: &str) -> (key: Option<[u8; 32]>)
    ensures
        key.is_some() == pubkey_from_text(text@).is_some(),
        key matches Some(k) ==> k@ == pubkey_from_text(text@).unwrap(),
        text@ == all_ones_text() ==> key.is_some() && key.unwrap()@ == zero_key(),
        text@ == tip_program_text() ==> key.is_some(),
{
    Pubkey::from_str(text).ok().map(|k| k.to_bytes())
}

/// What `Pubkey::try_find_program_address` finds for these seeds and program:
/// the address and its bump seed, or nothing.
pub uninterp spec fn program_address(seeds: Seq<Seq<u8>>, program_id: Seq<u8>) -> Option<(Seq<u8>, u8)>;

/// Calls `Pubkey::try_find_program_address` (a search over bump seeds with
/// SHA-256 and a curve check). The contract names the outcome.
#[verifier::external_body]
fn call_try_find_program_address(seeds: &Vec<Vec<u8>>, program_id: &[u8; 32]) -> (found: Option<([u8; 32], u8)>)
    ensures
        found.is_some() == program_address(seeds.deep_view(), program_id@).is_some(),
        found matches Some(f) ==> f.0@ == program_address(seeds.deep_view(), program_id@).unwrap().0
            && f.1 == program_address(seeds.deep_view(), program_id@).unwrap().1,
{
    let seed_refs: Vec<&[u8]> = seeds.iter().map(|s| s.as_slice()).collect();
    Pubkey::try_find_program_address(&seed_refs, &Pubkey::new_from_array(*program_id))
        .map(|(k, bump)| (k.to_bytes(), bump))
}

/// The key that `text` encodes, or `InvalidPubkey`.
pub open spec fn parsed_key(text: Seq<char>) -> Result<Seq<u8>, KeyError> {
    match pubkey_from_text(text) {
        Some(k) => Ok(k),
        None => Err(KeyError::InvalidPubkey),
    }
}

/// Decodes a base58 account key.
pub fn parse_account_key(text: &str) -> (res: Result<[u8; 32], KeyError>)
    ensures
        res is Ok <==> parsed_key(text@) is Ok,
        res matches Ok(k) ==> k@ == parsed_key(text@)->Ok_0,
        res matches Err(e) ==> parsed_key(text@) == Err::<Seq<u8>, KeyError>(e),
        text@ == all_ones_text() ==> (res matches Ok(k) && k@ == zero_key()),
        text@ == tip_program_text() ==> res is Ok,
{
    match call_pubkey_from_str(text) {
        Some(k) => Ok(k),
        None => Err(KeyError::InvalidPubkey),
    }
}

/// The eight bytes of `v`, least significant first.
pub open spec fn le_bytes(v: u64) -> Seq<u8> {
    seq![
        v as u8,
        (v >> 8) as u8,
        (v >> 16) as u8,
        (v >> 24) as u8,
        (v >> 32) as u8,
        (v >> 40) as u8,
        (v >> 48) as u8,
        (v >> 56) as u8,
    ]
}

/// The little-endian two's complement bytes of `x`.
pub fn i64_le_bytes(x: i64) -> (bytes: Vec<u8>)
    ensures
        bytes@ == le_bytes(x as u64),
{
    let v = x as u64;
    let bytes = vec![
        v as u8,
        (v >> 8) as u8,
        (v >> 16) as u8,
        (v >> 24) as u8,
        (v >> 32) as u8,
        (v >> 40) as u8,
        (v >> 48) as u8,
        (v >> 56) as u8,
    ];
    assert(bytes@ =~= le_bytes(v));
    bytes
}

/// The program that owns the Jito tip distribution accounts.
pub open spec fn tip_program_text() -> Seq<char> {
    "4R3gSG8BpU4t19KYj8CfnbtRpnT8gtk4dvTHxVRwc2r7"@
}

/// The first seed of a tip distribution account.
pub open spec fn tip_seed_prefix() -> Seq<u8> {
    "TIP_DISTRIBUTION_ACCOUNT".spec_bytes()
}

/// The tip distribution account of a vote account in an epoch: the program
/// address of the seeds (prefix, vote key, epoch bytes) under the tip program.
pub open spec fn tip_distribution_spec(vote_account: Seq<char>, epoch: i64) -> Result<Seq<u8>, KeyError> {
    match parsed_key(vote_account) {
        Err(e) => Err(e),
        Ok(vote) => match parsed_key(tip_program_text()) {
            Err(e) => Err(e),
            Ok(program) => match program_address(seq![tip_seed_prefix(), vote, le_bytes(epoch as u64)], program) {
                None => Err(KeyError::NoProgramAddress),
                Some(found) => Ok(found.0),
            },
        },
    }
}

/// Derives the account that holds the Jito tips of `vote_account` for `epoch`.
/// Where no bump seed gives an address, the error says so.
pub fn tip_distribution_account(vote_account: &str, epoch: i64) -> (res: Result<[u8; 32], KeyError>)
    ensures
        parsed_key(vote_account@) is Err <==> res == Err::<[u8; 32], KeyError>(KeyError::InvalidPubkey),
        res is Ok <==> tip_distribution_spec(vote_account@, epoch) is Ok,
        res matches Ok(k) ==> k@ == tip_distribution_spec(vote_account@, epoch)->Ok_0,
        res matches Err(e) ==> tip_distribution_spec(vote_account@, epoch) == Err::<Seq<u8>, KeyError>(e),
{
    let vote = match parse_account_key(vote_account) {
        Ok(k) => k,
        Err(e) => return Err(e),
    };
    let program = match parse_account_key("4R3gSG8BpU4t19KYj8CfnbtRpnT8gtk4dvTHxVRwc2r7") {
        Ok(k) => k,
        Err(e) => return Err(e),
    };
    let prefix = "TIP_DISTRIBUTION_ACCOUNT".as_bytes_vec();
    let vote_bytes = vstd::slice::slice_to_vec(vstd::array::array_as_slice(&vote));
    let epoch_bytes = i64_le_bytes(epoch);
    proof {
        broadcast use vstd::array::group_array_axioms;
        assert(vote_bytes@ == vote@);
    }
    let mut seeds: Vec<Vec<u8>> = Vec::new();
    seeds.push(prefix);
    seeds.push(vote_bytes);
    seeds.push(epoch_bytes);
    proof {
        assert(seeds.deep_view()[0] == prefix@);
        assert(seeds.deep_view()[1] == vote@);
        assert(seeds.deep_view()[2] == le_bytes(epoch as u64));
        assert(seeds.deep_view() =~= seq![tip_seed_prefix(), vote@, le_bytes(epoch as u64)]);
    }
    match call_try_find_program_address(&seeds, &program) {
        Some(found) => Ok(found.0),
        None => Err(KeyError::NoProgramAddress),
    }
}

} // verus!
