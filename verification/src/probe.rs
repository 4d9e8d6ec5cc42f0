//! Frame counting: reading the probe capability's textual output back as
//! the exact frame count.  The probe prints a single unsigned number; the
//! parser trims surrounding whitespace and accepts exactly an unsigned
//! 64-bit numeral (with Rust's optional leading plus sign).

use vstd::prelude::*;
use crate::digits::{all_digits, is_digit, numeral_val};
use crate::ExtractError;

verus! {

/// ASCII whitespace, the characters trimmed around the probe's number.
pub open spec fn is_space(c: char) -> bool {
    c == ' ' || c == '\t' || c == '\n' || c == '\r' || c == '\u{b}' || c == '\u{c}'
}

/// `s` without its leading whitespace.
pub open spec fn trim_front(s: Seq<char>) -> Seq<char>
    decreases s.len(),
{
    if s.len() > 0 && is_space(s[0]) {
        trim_front(s.drop_first())
    } else {
        s
    }
}

/// `s` without its trailing whitespace.
pub open spec fn trim_back(s: Seq<char>) -> Seq<char>
    decreases s.len(),
{
    if s.len() > 0 && is_space(s.last()) {
        trim_back(s.drop_last())
    } else {
        s
    }
}

/// `s` without surrounding whitespace.
pub open spec fn trimmed(s: Seq<char>) -> Seq<char> {
    trim_back(trim_front(s))
}

/// The digit part of an unsigned numeral: an optional leading plus sign
/// is dropped.
pub open spec fn numeral_digits(s: Seq<char>) -> Seq<char> {
    if s.len() > 0 && s[0] == '+' {
        s.drop_first()
    } else {
        s
    }
}

/// Whether `s` is an unsigned numeral whose value fits 64 bits.
pub open spec fn is_u64_numeral(s: Seq<char>) -> bool {
    let d = numeral_digits(s);
    d.len() > 0 && all_digits(d) && numeral_val(d) <= u64::MAX
}

/// What parsing returns for any probe text: the number if the trimmed
/// text is a numeral that fits, the parse error otherwise.
pub open spec fn parse_result(s: Seq<char>) -> Result<u64, ExtractError> {
    if is_u64_numeral(trimmed(s)) {
        Ok(numeral_val(numeral_digits(trimmed(s))) as u64)
    } else {
        Err(ExtractError::ProbeParse)
    }
}

/// If the first `lo` characters are spaces and the next one is not,
/// trimming the front removes exactly them.
proof fn lemma_trim_front_idx(s: Seq<char>, lo: int)
    requires
        0 <= lo <= s.len(),
        forall|k: int| 0 <= k < lo ==> is_space(#[trigger] s[k]),
        lo == s.len() || !is_space(s[lo as int]),
    ensures
        trim_front(s) == s.skip(lo),
    decreases lo,
{
    if lo == 0 {
        assert(s.skip(0) =~= s);
    } else {
        lemma_trim_front_idx(s.drop_first(), lo - 1);
        assert(s.drop_first().skip(lo - 1) =~= s.skip(lo));
    }
}

/// If everything from `hi` on is a space and the character before `hi`
/// is not, trimming the back keeps exactly the first `hi` characters.
proof fn lemma_trim_back_idx(s: Seq<char>, hi: int)
    requires
        0 <= hi <= s.len(),
        forall|k: int| hi <= k < s.len() ==> is_space(#[trigger] s[k]),
        hi == 0 || !is_space(s[hi - 1]),
    ensures
        trim_back(s) == s.take(hi),
    decreases s.len(),
{
    if hi == s.len() {
        assert(s.take(hi) =~= s);
    } else {
        lemma_trim_back_idx(s.drop_last(), hi);
        assert(s.drop_last().take(hi) =~= s.take(hi));
    }
}

/// A digit string's value only grows as more digits follow.
proof fn lemma_numeral_prefix_le(s: Seq<char>, m: int)
    requires
        0 <= m <= s.len(),
        all_digits(s),
    ensures
        0 <= numeral_val(s.take(m)) <= numeral_val(s),
    decreases s.len() - m,
{
    lemma_numeral_nonneg(s.take(m));
    if m == s.len() {
        assert(s.take(m) =~= s);
    } else {
        lemma_numeral_prefix_le(s, m + 1);
        assert(s.take(m + 1).drop_last() =~= s.take(m));
        assert(is_digit(s.take(m + 1).last()));
        lemma_numeral_nonneg(s.take(m));
    }
}

/// A digit string's value is not negative.
proof fn lemma_numeral_nonneg(s: Seq<char>)
    requires
        forall|i: int| 0 <= i < s.len() ==> is_digit(#[trigger] s[i]),
    ensures
        numeral_val(s) >= 0,
    decreases s.len(),
{
    if s.len() > 0 {
        lemma_numeral_nonneg(s.drop_last());
    }
}

/// Whether `c` is an ASCII whitespace character.
fn is_space_char(c: char) -> (r: bool)
    ensures
        r == is_space(c),
{
    c == ' ' || c == '\t' || c == '\n' || c == '\r' || c == '\u{b}' || c == '\u{c}'
}

/// Whether `c` is a decimal digit character.
fn is_digit_char(c: char) -> (r: bool)
    ensures
        r == is_digit(c),
{
    let u = c as u32;
    48 <= u && u <= 57
}

/// Parses the probe's textual output as the exact frame count: trims
/// surrounding whitespace and reads an unsigned 64-bit numeral.  Anything
/// else — empty text, stray characters, a value past 64 bits — is the
/// probe parse error.
pub fn parse_frame_count(s: &str) -> (r: Result<u64, ExtractError>)
    ensures
        match r {
            Ok(v) => parse_result(s@) == Ok::<u64, ExtractError>(v),
            Err(e) => parse_result(s@) == Err::<u64, ExtractError>(e),
        },
{
    let n = s.unicode_len();
    let mut lo: usize = 0;
    while lo < n && is_space_char(s.get_char(lo))
        invariant
            lo <= n,
            n == s@.len(),
            forall|k: int| 0 <= k < lo ==> is_space(#[trigger] s@[k]),
        decreases n - lo,
    {
        lo += 1;
    }
    let mut hi: usize = n;
    while hi > lo && is_space_char(s.get_char(hi - 1))
        invariant
            lo <= hi <= n,
            n == s@.len(),
            forall|k: int| 0 <= k < lo ==> is_space(#[trigger] s@[k]),
            lo == n || !is_space(s@[lo as int]),
            forall|k: int| hi <= k < n ==> is_space(#[trigger] s@[k]),
        decreases hi,
    {
        hi -= 1;
    }
    proof {
        lemma_trim_front_idx(s@, lo as int);
        if hi == lo {
            lemma_trim_back_idx(s@.skip(lo as int), 0);
        } else {
            lemma_trim_back_idx(s@.skip(lo as int), hi - lo);
        }
        assert(s@.skip(lo as int).take(hi - lo) =~= s@.subrange(lo as int, hi as int));
    }
    let ghost t = s@.subrange(lo as int, hi as int);
    proof {
        assert(trimmed(s@) == t);
    }
    if hi == lo {
        proof {
            assert(numeral_digits(t) =~= t);
        }
        return Err(ExtractError::ProbeParse);
    }
    let mut idx: usize = lo;
    if s.get_char(lo) == '+' {
        idx = lo + 1;
    }
    let ghost d = s@.subrange(idx as int, hi as int);
    proof {
        if s@[lo as int] == '+' {
            assert(t.drop_first() =~= d);
        } else {
            assert(t =~= d);
        }
        assert(numeral_digits(t) == d);
    }
    if idx == hi {
        proof {
            assert(d.len() == 0);
        }
        return Err(ExtractError::ProbeParse);
    }
    let mut acc: u64 = 0;
    let mut k: usize = idx;
    while k < hi
        invariant
            idx <= k <= hi <= n,
            n == s@.len(),
            idx < hi,
            trimmed(s@) == t,
            numeral_digits(t) == d,
            d == s@.subrange(idx as int, hi as int),
            forall|j: int| idx <= j < k ==> is_digit(#[trigger] s@[j]),
            acc as int == numeral_val(s@.subrange(idx as int, k as int)),
        decreases hi - k,
    {
        let c = s.get_char(k);
        if !is_digit_char(c) {
            proof {
                assert(d[k - idx] == s@[k as int]);
                assert(!all_digits(d));
            }
            return Err(ExtractError::ProbeParse);
        }
        let dv: u64 = (c as u32) as u64 - 48;
        if acc > 1844674407370955161u64 || (acc == 1844674407370955161u64 && dv > 5) {
            proof {
                let pre = s@.subrange(idx as int, k + 1);
                assert(pre.drop_last() =~= s@.subrange(idx as int, k as int));
                assert(pre.last() == s@[k as int]);
                assert(numeral_val(pre) > u64::MAX);
                if all_digits(d) {
                    lemma_numeral_prefix_le(d, k + 1 - idx);
                    assert(d.take(k + 1 - idx) =~= pre);
                    assert(numeral_val(d) > u64::MAX);
                }
            }
            return Err(ExtractError::ProbeParse);
        }
        proof {
            let pre = s@.subrange(idx as int, k + 1);
            assert(pre.drop_last() =~= s@.subrange(idx as int, k as int));
            assert(pre.last() == s@[k as int]);
        }
        acc = acc * 10 + dv;
        k += 1;
    }
    proof {
        assert(s@.subrange(idx as int, k as int) == d);
        assert forall|j: int| 0 <= j < d.len() implies is_digit(#[trigger] d[j]) by {
            assert(d[j] == s@[j + idx]);
        }
    }
    Ok(acc)
}

} // verus!
