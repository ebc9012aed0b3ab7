//! The digest of a candidate and the trailing-zero match test.

use vstd::prelude::*;
use sha2::{Digest, Sha256};

verus! {

/// Number of hexadecimal characters in a SHA-256 digest string: 32 output
/// bytes, two characters each.
pub const DIGEST_HEX_LEN: usize = 64;

/// The hexadecimal digest of a candidate: the characters that [`get_hash`]
/// returns for it. The digest depends on the candidate alone.
pub uninterp spec fn sha256_hex_of(number: u32) -> Seq<char>;

/// Relies on sha2's `Sha256` (`new` / `update` / `finalize`): a pure digest of
/// the candidate's 4 big-endian bytes, 32 output bytes, written here as two
/// lowercase hexadecimal characters per byte.
#[verifier::external_body]
pub fn get_hash(number: u32) -> (r: String)
    ensures
        r@ == sha256_hex_of(number),
        r@.len() == DIGEST_HEX_LEN,
{
    let mut hasher = Sha256::new();
    hasher.update(&number.to_be_bytes());
    hasher
        .finalize()
        .iter()
        .map(|b| format!("{:02x}", b))
        .collect()
}

/// A digest matches when it has at least `zero_count` characters and its last
/// `zero_count` characters are all `'0'`. A `zero_count` beyond the digest's
/// length never matches.
pub open spec fn is_match_spec(digest: Seq<char>, zero_count: int) -> bool {
    &&& 0 <= zero_count <= digest.len()
    &&& forall|i: int| digest.len() - zero_count <= i < digest.len() ==> #[trigger] digest[i] == '0'
}

/// Whether the digest of `number` ends in `zero_count` zero characters.
pub open spec fn candidate_matches(number: u32, zero_count: int) -> bool {
    is_match_spec(sha256_hex_of(number), zero_count)
}

/// Tests whether the last `zero_count` characters of `digest` are all `'0'`.
pub fn is_match(digest: &str, zero_count: usize) -> (r: bool)
    ensures
        r == is_match_spec(digest@, zero_count as int),
{
    let len = digest.unicode_len();
    if zero_count > len {
        return false;
    }
    let mut i: usize = len - zero_count;
    while i < len
        invariant
            len == digest@.len(),
            zero_count <= len,
            len - zero_count <= i <= len,
            forall|j: int| len - zero_count <= j < i ==> #[trigger] digest@[j] == '0',
        decreases len - i,
    {
        if digest.get_char(i) != '0' {
            return false;
        }
        i = i + 1;
    }
    true
}

/// One reported match: a candidate together with its digest.
pub struct MatchRecord {
    /// The matching candidate.
    pub number: u32,
    /// Its full hexadecimal digest.
    pub digest: String,
}

/// A record is sound when it carries the digest of its own candidate.
pub open spec fn record_ok(rec: MatchRecord) -> bool {
    rec.digest@ == sha256_hex_of(rec.number)
}

/// Computes the digest of one candidate and reports a record exactly when it
/// matches.
pub fn check_candidate(number: u32, zero_count: usize) -> (r: Option<MatchRecord>)
    ensures
        r is Some <==> candidate_matches(number, zero_count as int),
        r matches Some(rec) ==> rec.number == number && record_ok(rec),
{
    let digest = get_hash(number);
    if is_match(digest.as_str(), zero_count) {
        Some(MatchRecord { number, digest })
    } else {
        None
    }
}

} // verus!
