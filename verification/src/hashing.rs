//! Content-addressed cache identity: the cache directory name is derived
//! from a cryptographic digest of the canonical source path, so the same
//! canonical path always maps to the same directory.

use vstd::prelude::*;
use vstd::string::StringExecFns;
use crate::digits::digit_char;

verus! {

/// The lowercase hexadecimal digit character for a value below sixteen.
pub open spec fn hex_digit_char(d: int) -> char {
    if d < 10 {
        digit_char(d)
    } else if d == 10 {
        'a'
    } else if d == 11 {
        'b'
    } else if d == 12 {
        'c'
    } else if d == 13 {
        'd'
    } else if d == 14 {
        'e'
    } else {
        'f'
    }
}

/// The lowercase hexadecimal rendering of a byte string: two digits per
/// byte, high nibble first.
pub open spec fn hex_of(bytes: Seq<u8>) -> Seq<char>
    decreases bytes.len(),
{
    if bytes.len() == 0 {
        Seq::empty()
    } else {
        seq![
            hex_digit_char(bytes[0] as int / 16),
            hex_digit_char(bytes[0] as int % 16),
        ] + hex_of(bytes.drop_first())
    }
}

/// The SHA-256 digest of a string's bytes.  The digest depends on the
/// characters alone; it is not written out here, only named.
pub uninterp spec fn sha256_of(s: Seq<char>) -> Seq<u8>;

/// Relies on sha2's `Sha256::digest`: the digest is a function of the
/// input bytes alone and is exactly 32 bytes long.
#[verifier::external_body]
fn sha256_digest(s: &str) -> (r: Vec<u8>)
    ensures
        r@ == sha256_of(s@),
        r@.len() == 32,
{
    <sha2::Sha256 as sha2::Digest>::digest(s.as_bytes()).to_vec()
}

/// Relies on hex's `encode`: two lowercase hexadecimal digits per input
/// byte, high nibble first.
#[verifier::external_body]
fn hex_encode(bytes: &Vec<u8>) -> (r: String)
    ensures
        r@ == hex_of(bytes@),
{
    hex::encode(bytes.as_slice())
}

/// A hexadecimal rendering is twice as long as its byte string.
pub proof fn lemma_hex_of_len(bytes: Seq<u8>)
    ensures
        hex_of(bytes).len() == 2 * bytes.len(),
    decreases bytes.len(),
{
    if bytes.len() > 0 {
        lemma_hex_of_len(bytes.drop_first());
    }
}

/// The cache directory name that a canonical source path maps to.
pub open spec fn dir_name_of(canonical: Seq<char>) -> Seq<char> {
    "videohash_"@ + hex_of(sha256_of(canonical))
}

/// Derives the cache directory name for a canonical source path: the
/// fixed prefix followed by the 64-digit hexadecimal SHA-256 digest of
/// the path.  The name is a function of the path alone, so repeated
/// resolution of the same canonical path yields the same identity.
pub fn cache_dir_name(canonical: &str) -> (r: String)
    ensures
        r@ == dir_name_of(canonical@),
        r@.len() == 74,
{
    let digest = sha256_digest(canonical);
    let hexs = hex_encode(&digest);
    let mut out = "videohash_".to_owned();
    out.append(hexs.as_str());
    proof {
        reveal_strlit("videohash_");
        lemma_hex_of_len(digest@);
        assert(out@ =~= dir_name_of(canonical@));
    }
    out
}

/// Resolving the same canonical path twice yields the same directory
/// identity: the name depends on nothing but the path.
pub proof fn lemma_cache_dir_deterministic(p1: Seq<char>, p2: Seq<char>)
    requires
        p1 == p2,
    ensures
        dir_name_of(p1) == dir_name_of(p2),
{
}

} // verus!
