//! Lexicographic order on character sequences, and a verified sort of a
//! vector of strings by that order.  The result collector sorts the frame
//! file names it keeps, so that fixed-width numbering yields chronological
//! order.

use vstd::prelude::*;
use vstd::seq_lib::to_multiset_insert;
use vstd::seq_lib::to_multiset_build;

verus! {

/// Lexicographic "less than or equal" on character sequences, by code point.
/// For valid UTF-8 strings this coincides with byte-wise string order.
pub open spec fn lex_le(a: Seq<char>, b: Seq<char>) -> bool
    decreases a.len(),
{
    if a.len() == 0 {
        true
    } else if b.len() == 0 {
        false
    } else if (a[0] as int) < (b[0] as int) {
        true
    } else if a[0] == b[0] {
        lex_le(a.drop_first(), b.drop_first())
    } else {
        false
    }
}

/// Strict lexicographic order.
pub open spec fn lex_lt(a: Seq<char>, b: Seq<char>) -> bool {
    lex_le(a, b) && a != b
}

/// Every sequence is below itself.
pub proof fn lemma_lex_refl(a: Seq<char>)
    ensures
        lex_le(a, a),
    decreases a.len(),
{
    if a.len() > 0 {
        lemma_lex_refl(a.drop_first());
    }
}

/// Two sequences below each other are equal.
pub proof fn lemma_lex_antisym(a: Seq<char>, b: Seq<char>)
    requires
        lex_le(a, b),
        lex_le(b, a),
    ensures
        a == b,
    decreases a.len(),
{
    if a.len() > 0 && b.len() > 0 && a[0] == b[0] {
        lemma_lex_antisym(a.drop_first(), b.drop_first());
        assert(a =~= seq![a[0]] + a.drop_first());
        assert(b =~= seq![b[0]] + b.drop_first());
    }
}

/// Any two sequences are ordered one way or the other.
pub proof fn lemma_lex_total(a: Seq<char>, b: Seq<char>)
    ensures
        lex_le(a, b) || lex_le(b, a),
    decreases a.len(),
{
    if a.len() > 0 && b.len() > 0 && a[0] == b[0] {
        lemma_lex_total(a.drop_first(), b.drop_first());
    }
}

/// Lexicographic order is transitive.
pub proof fn lemma_lex_trans(a: Seq<char>, b: Seq<char>, c: Seq<char>)
    requires
        lex_le(a, b),
        lex_le(b, c),
    ensures
        lex_le(a, c),
    decreases a.len(),
{
    if a.len() > 0 && b.len() > 0 && c.len() > 0 && a[0] == b[0] && b[0] == c[0] {
        lemma_lex_trans(a.drop_first(), b.drop_first(), c.drop_first());
    }
}

/// If the first `k` characters agree, the order is decided by the rest.
proof fn lemma_lex_le_skip(a: Seq<char>, b: Seq<char>, k: int)
    requires
        0 <= k <= a.len(),
        k <= b.len(),
        forall|i: int| 0 <= i < k ==> a[i] == b[i],
    ensures
        lex_le(a, b) == lex_le(a.skip(k), b.skip(k)),
    decreases k,
{
    if k == 0 {
        assert(a.skip(0) =~= a);
        assert(b.skip(0) =~= b);
    } else {
        assert(a[0] == b[0]);
        assert forall|i: int| 0 <= i < k - 1 implies a.drop_first()[i] == b.drop_first()[i] by {
            assert(a[i + 1] == b[i + 1]);
        }
        lemma_lex_le_skip(a.drop_first(), b.drop_first(), k - 1);
        assert(a.drop_first().skip(k - 1) =~= a.skip(k));
        assert(b.drop_first().skip(k - 1) =~= b.skip(k));
    }
}

/// Compares two strings lexicographically by character.
pub fn str_le(a: &str, b: &str) -> (r: bool)
    ensures
        r == lex_le(a@, b@),
{
    let alen = a.unicode_len();
    let blen = b.unicode_len();
    let mut i: usize = 0;
    while i < alen && i < blen
        invariant
            i <= alen,
            i <= blen,
            alen == a@.len(),
            blen == b@.len(),
            forall|k: int| 0 <= k < i ==> a@[k] == b@[k],
        decreases alen - i,
    {
        let ca = a.get_char(i);
        let cb = b.get_char(i);
        if ca as u32 != cb as u32 {
            proof {
                lemma_lex_le_skip(a@, b@, i as int);
                assert(a@.skip(i as int)[0] == a@[i as int]);
                assert(b@.skip(i as int)[0] == b@[i as int]);
            }
            return (ca as u32) < (cb as u32);
        }
        i += 1;
    }
    proof {
        lemma_lex_le_skip(a@, b@, i as int);
        if i == alen {
            assert(a@.skip(i as int).len() == 0);
        } else {
            assert(b@.skip(i as int).len() == 0);
            assert(a@.skip(i as int).len() > 0);
        }
    }
    alen <= blen
}

/// The views of a string vector's elements, each below the next.
pub open spec fn sorted_strs(v: Seq<String>) -> bool {
    forall|i: int, j: int| 0 <= i < j < v.len() ==> lex_le(#[trigger] v[i]@, #[trigger] v[j]@)
}

/// Sorts the strings into ascending lexicographic order.  The result holds
/// exactly the input's strings, each as often as it came in.
pub fn sort_strings(input: Vec<String>) -> (out: Vec<String>)
    ensures
        sorted_strs(out@),
        out@.to_multiset() == input@.to_multiset(),
        out@.len() == input@.len(),
{
    let mut out: Vec<String> = Vec::new();
    let mut i: usize = 0;
    proof {
        assert(input@.take(0) =~= Seq::<String>::empty());
        assert(out@.to_multiset() =~= input@.take(0).to_multiset());
    }
    while i < input.len()
        invariant
            i <= input@.len(),
            out@.len() == i,
            sorted_strs(out@),
            out@.to_multiset() == input@.take(i as int).to_multiset(),
        decreases input@.len() - i,
    {
        let x = input[i].clone();
        let mut p: usize = 0;
        while p < out.len() && str_le(&out[p], &x)
            invariant
                p <= out@.len(),
                out@.len() == i,
                sorted_strs(out@),
                forall|k: int| 0 <= k < p ==> lex_le(#[trigger] out@[k]@, x@),
            decreases out@.len() - p,
        {
            p += 1;
        }
        let ghost prev = out@;
        proof {
            if p < prev.len() {
                lemma_lex_total(prev[p as int]@, x@);
                assert forall|k: int| p <= k < prev.len() implies lex_le(
                    x@,
                    #[trigger] prev[k]@,
                ) by {
                    if k == p {
                        lemma_lex_refl(prev[p as int]@);
                    } else {
                        assert(lex_le(prev[p as int]@, prev[k]@));
                    }
                    lemma_lex_trans(x@, prev[p as int]@, prev[k]@);
                }
            }
            to_multiset_insert(prev, p as int, x);
            assert(input@.take(i + 1) =~= input@.take(i as int).push(input@[i as int]));
            to_multiset_build(input@.take(i as int), input@[i as int]);
        }
        out.insert(p, x);
        proof {
            let now = out@;
            let pp = p as int;
            assert(now == prev.insert(pp, x));
            assert forall|k: int| 0 <= k < pp implies now[k] == prev[k] by {}
            assert(now[pp] == x);
            assert forall|k: int| pp < k < now.len() implies now[k] == prev[k - 1] by {}
            assert forall|u: int, v: int| 0 <= u < v < now.len() implies lex_le(
                #[trigger] now[u]@,
                #[trigger] now[v]@,
            ) by {
                if v < pp {
                    assert(lex_le(prev[u]@, prev[v]@));
                } else if v == pp {
                    assert(lex_le(prev[u]@, x@));
                } else if u < pp {
                    assert(lex_le(prev[u]@, prev[v - 1]@));
                } else if u == pp {
                    assert(lex_le(x@, prev[v - 1]@));
                } else {
                    assert(lex_le(prev[u - 1]@, prev[v - 1]@));
                }
            }
        }
        i += 1;
    }
    proof {
        assert(input@.take(i as int) =~= input@);
    }
    out
}

} // verus!
