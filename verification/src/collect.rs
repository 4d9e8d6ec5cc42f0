//! Result collection: of the names found in the cache directory, keep the
//! frame image files, sort them into chronological (file name) order, and
//! check that exactly the expected number of frames was produced.

use vstd::prelude::*;
use crate::order::{sort_strings, sorted_strs};
use crate::ExtractError;

verus! {

/// Whether `s` begins with `p`.
pub open spec fn has_prefix(s: Seq<char>, p: Seq<char>) -> bool {
    s.len() >= p.len() && s.subrange(0, p.len() as int) == p
}

/// Whether `s` ends with `q`.
pub open spec fn has_suffix(s: Seq<char>, q: Seq<char>) -> bool {
    s.len() >= q.len() && s.subrange(s.len() - q.len(), s.len() as int) == q
}

/// Whether a directory entry's name is one of the decoder's frame files:
/// the fixed prefix and the image extension.
pub open spec fn is_frame_name(s: Seq<char>) -> bool {
    has_prefix(s, "frame_"@) && has_suffix(s, ".png"@)
}

/// The entries a directory listing contributes to the result, in listing
/// order: exactly those named like frame files.
pub open spec fn kept_of(entries: Seq<String>) -> Seq<String> {
    entries.filter(|s: String| is_frame_name(s@))
}

/// What collection returns for any directory listing: the frame files in
/// ascending name order when exactly the expected number is there, and
/// the count-mismatch error naming both counts otherwise.
pub open spec fn collect_post(
    entries: Seq<String>,
    expected: usize,
    r: Result<Vec<String>, ExtractError>,
) -> bool {
    let kept = kept_of(entries);
    match r {
        Ok(paths) => {
            &&& kept.len() == expected
            &&& paths@.len() == expected
            &&& paths@.to_multiset() == kept.to_multiset()
            &&& sorted_strs(paths@)
        },
        Err(e) => {
            &&& kept.len() != expected
            &&& e == (ExtractError::CountMismatch {
                expected,
                actual: kept.len() as usize,
            })
        },
    }
}

/// Whether `s` begins with the characters of `p`.
fn str_has_prefix(s: &str, p: &str) -> (r: bool)
    ensures
        r == has_prefix(s@, p@),
{
    let sl = s.unicode_len();
    let pl = p.unicode_len();
    if sl < pl {
        return false;
    }
    let mut i: usize = 0;
    while i < pl
        invariant
            i <= pl <= sl,
            sl == s@.len(),
            pl == p@.len(),
            forall|k: int| 0 <= k < i ==> s@[k] == p@[k],
        decreases pl - i,
    {
        if s.get_char(i) as u32 != p.get_char(i) as u32 {
            proof {
                assert(s@.subrange(0, pl as int)[i as int] != p@[i as int]);
            }
            return false;
        }
        i += 1;
    }
    proof {
        assert(s@.subrange(0, pl as int) =~= p@);
    }
    true
}

/// Whether `s` ends with the characters of `q`.
fn str_has_suffix(s: &str, q: &str) -> (r: bool)
    ensures
        r == has_suffix(s@, q@),
{
    let sl = s.unicode_len();
    let ql = q.unicode_len();
    if sl < ql {
        return false;
    }
    let off = sl - ql;
    let mut i: usize = 0;
    while i < ql
        invariant
            i <= ql <= sl,
            off == sl - ql,
            sl == s@.len(),
            ql == q@.len(),
            forall|k: int| 0 <= k < i ==> s@[off + k] == q@[k],
        decreases ql - i,
    {
        if s.get_char(off + i) as u32 != q.get_char(i) as u32 {
            proof {
                assert(s@.subrange(off as int, sl as int)[i as int] != q@[i as int]);
            }
            return false;
        }
        i += 1;
    }
    proof {
        assert(s@.subrange(off as int, sl as int) =~= q@);
    }
    true
}

/// Whether a directory entry's name is one of the decoder's frame files.
pub fn is_frame_file(s: &str) -> (r: bool)
    ensures
        r == is_frame_name(s@),
{
    str_has_prefix(s, "frame_") && str_has_suffix(s, ".png")
}

/// Collects the extraction result from a directory listing: keeps the
/// frame files, sorts them by name, and fails with the count-mismatch
/// error — naming the expected and the found count — unless exactly the
/// expected number of frames is present.  On success the result's length
/// is the expected count and position `i` holds the `i`-th frame file in
/// ascending name order.
pub fn collect(entries: Vec<String>, expected: usize) -> (r: Result<Vec<String>, ExtractError>)
    ensures
        collect_post(entries@, expected, r),
{
    let ghost pred = |s: String| is_frame_name(s@);
    let mut kept: Vec<String> = Vec::new();
    let mut i: usize = 0;
    proof {
        reveal(Seq::filter);
        assert(entries@.take(0).filter(pred) =~= Seq::<String>::empty());
    }
    while i < entries.len()
        invariant
            i <= entries@.len(),
            kept@ == entries@.take(i as int).filter(pred),
            pred == (|s: String| is_frame_name(s@)),
        decreases entries@.len() - i,
    {
        proof {
            reveal(Seq::filter);
            assert(entries@.take(i + 1).drop_last() =~= entries@.take(i as int));
            assert(entries@.take(i + 1).last() == entries@[i as int]);
        }
        if is_frame_file(entries[i].as_str()) {
            kept.push(entries[i].clone());
        }
        i += 1;
    }
    proof {
        assert(entries@.take(entries@.len() as int) =~= entries@);
    }
    if kept.len() != expected {
        return Err(ExtractError::CountMismatch { expected, actual: kept.len() });
    }
    let sorted = sort_strings(kept);
    Ok(sorted)
}

} // verus!
