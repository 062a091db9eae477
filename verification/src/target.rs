use vstd::prelude::*;

verus! {

// Classification of a decompilation target string: a 20-byte address, a
// 32-byte transaction hash, or raw hex bytecode.  The anchored patterns are
// checked by the regex crate; their meaning is simple enough to state
// exactly, so each wrapper's contract pins the answer.

/// `c` is an ASCII hex digit.
pub open spec fn spec_is_hex_char(c: char) -> bool {
    ('0' <= c && c <= '9') || ('a' <= c && c <= 'f') || ('A' <= c && c <= 'F')
}

/// Every character of `s` is a hex digit.
pub open spec fn spec_all_hex_chars(s: Seq<char>) -> bool {
    forall|i: int| 0 <= i < s.len() ==> spec_is_hex_char(#[trigger] s[i])
}

/// `s` is an optional `0x` marker followed by exactly `n` hex digits.
pub open spec fn spec_opt_0x_then_hex(s: Seq<char>, n: nat) -> bool {
    (s.len() == n && spec_all_hex_chars(s)) || (s.len() == n + 2 && s[0] == '0' && s[1] == 'x'
        && spec_all_hex_chars(s.skip(2)))
}

/// `s` matches the address pattern: `(0x)?` then 40 hex digits.
pub open spec fn spec_is_address_text(s: Seq<char>) -> bool {
    spec_opt_0x_then_hex(s, 40)
}

/// `s` matches the transaction-hash pattern: `(0x)?` then 64 hex digits.
pub open spec fn spec_is_tx_hash_text(s: Seq<char>) -> bool {
    spec_opt_0x_then_hex(s, 64)
}

/// `s` matches the raw-bytecode pattern: `(0x)?` then at most 50000 hex
/// digits (the validator's ceiling of 25000 bytes).
pub open spec fn spec_is_bytecode_text(s: Seq<char>) -> bool {
    if s.len() >= 2 && s[0] == '0' && s[1] == 'x' {
        s.len() <= 50002 && spec_all_hex_chars(s.skip(2))
    } else {
        s.len() <= 50000 && spec_all_hex_chars(s)
    }
}

/// Relies on regex::Regex::is_match with the anchored pattern
/// `^(0x)?[0-9a-fA-F]{40}$`: true exactly for an optional `0x` marker
/// followed by 40 hex digits.  Since `x` is itself no hex digit, the
/// optional group is unambiguous.
#[verifier::external_body]
fn address_pattern_matches(s: &str) -> (r: bool)
    ensures
        r == spec_is_address_text(s@),
{
    regex::Regex::new(r"^(0x)?[0-9a-fA-F]{40}$").unwrap().is_match(s)
}

/// Relies on regex::Regex::is_match with the anchored pattern
/// `^(0x)?[0-9a-fA-F]{64}$`.
#[verifier::external_body]
fn tx_hash_pattern_matches(s: &str) -> (r: bool)
    ensures
        r == spec_is_tx_hash_text(s@),
{
    regex::Regex::new(r"^(0x)?[0-9a-fA-F]{64}$").unwrap().is_match(s)
}

/// Relies on regex::Regex::is_match with the anchored pattern
/// `^(0x)?[0-9a-fA-F]{0,50000}$`.
#[verifier::external_body]
fn bytecode_pattern_matches(s: &str) -> (r: bool)
    ensures
        r == spec_is_bytecode_text(s@),
{
    regex::Regex::new(r"^(0x)?[0-9a-fA-F]{0,50000}$").unwrap().is_match(s)
}

/// What a target string was recognized as.
#[derive(PartialEq, Eq, Structural, Clone, Copy, Debug)]
pub enum TargetKind {
    /// A 20-byte on-chain address, to be fetched over RPC.
    Address,
    /// A 32-byte transaction hash, to be fetched over RPC.
    TransactionHash,
    /// Raw hex bytecode, handled locally.
    RawHex,
    /// None of the accepted shapes; fatal to the pipeline.
    Invalid,
}

/// Classify a target string.  An address is recognized before a
/// transaction hash, and both before raw bytecode, which they also match.
pub fn validate_target(s: &str) -> (k: TargetKind)
    ensures
        k == TargetKind::Address <==> spec_is_address_text(s@),
        k == TargetKind::TransactionHash <==> (!spec_is_address_text(s@) && spec_is_tx_hash_text(
            s@,
        )),
        k == TargetKind::RawHex <==> (!spec_is_address_text(s@) && !spec_is_tx_hash_text(s@)
            && spec_is_bytecode_text(s@)),
        k == TargetKind::Invalid <==> (!spec_is_address_text(s@) && !spec_is_tx_hash_text(s@)
            && !spec_is_bytecode_text(s@)),
{
    if address_pattern_matches(s) {
        TargetKind::Address
    } else if tx_hash_pattern_matches(s) {
        TargetKind::TransactionHash
    } else if bytecode_pattern_matches(s) {
        TargetKind::RawHex
    } else {
        TargetKind::Invalid
    }
}

} // verus!
