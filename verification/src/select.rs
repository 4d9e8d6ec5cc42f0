//! The extraction invoker's pure half: the frame-selection expression the
//! decoder is driven with, the fixed-width output naming pattern, and the
//! guarantee that fixed-width names sort back into extraction order.

use vstd::prelude::*;
use vstd::string::StringExecFns;
use vstd::arithmetic::mul::lemma_mul_is_associative;
use crate::digits::{
    all_digits, dec_of, is_digit, lemma_dec_of_digits, lemma_dec_of_len_9999, lemma_dec_of_val,
    numeral_val, push_decimal,
};
use crate::order::{lex_le, lex_lt};

verus! {

/// The selection term for one frame index: `eq(n\,<index>)`, an equality
/// test against the decoder's internal frame counter.
pub open spec fn eq_term_of(idx: u64) -> Seq<char> {
    "eq(n\\,"@ + dec_of(idx as nat) + ")"@
}

/// The whole selection expression: the per-index terms joined by `+`,
/// which the decoder reads as logical OR.  The predicate is fixed before
/// the decoder starts; it is evaluated in one linear pass.
pub open spec fn select_expr_of(indices: Seq<u64>) -> Seq<char>
    decreases indices.len(),
{
    if indices.len() == 0 {
        Seq::empty()
    } else if indices.len() == 1 {
        eq_term_of(indices[0])
    } else {
        select_expr_of(indices.drop_last()) + "+"@ + eq_term_of(indices.last())
    }
}

/// Builds the selection expression for the given frame indices.
pub fn select_expr(indices: &Vec<u64>) -> (r: String)
    ensures
        r@ == select_expr_of(indices@),
{
    let mut s = String::new();
    let mut i: usize = 0;
    while i < indices.len()
        invariant
            i <= indices@.len(),
            s@ == select_expr_of(indices@.take(i as int)),
        decreases indices@.len() - i,
    {
        if i > 0 {
            s.append("+");
        }
        s.append("eq(n\\,");
        push_decimal(&mut s, indices[i]);
        s.append(")");
        proof {
            assert(indices@.take(i + 1).drop_last() =~= indices@.take(i as int));
            assert(indices@.take(i + 1).last() == indices@[i as int]);
            assert(s@ =~= select_expr_of(indices@.take(i + 1)));
        }
        i += 1;
    }
    proof {
        assert(indices@.take(indices@.len() as int) =~= indices@);
    }
    s
}

/// The output file name pattern handed to the decoder: a fixed numeric
/// width, zero-padded, so that file name order is extraction order.
pub fn output_pattern() -> (r: String)
    ensures
        r@ == "frame_%04d.png"@,
{
    "frame_%04d.png".to_owned()
}

/// `k` zero characters.
pub open spec fn zeros(k: int) -> Seq<char>
    decreases k,
{
    if k <= 0 {
        Seq::empty()
    } else {
        seq!['0'] + zeros(k - 1)
    }
}

/// A numeral left-padded with zeros to at least four digits.
pub open spec fn pad4(s: Seq<char>) -> Seq<char> {
    zeros(4 - s.len()) + s
}

/// The decoder's name for the output file of ordinal `i` (counting from
/// one): the fixed prefix, the zero-padded ordinal, the image extension.
pub open spec fn frame_name_of(i: nat) -> Seq<char> {
    "frame_"@ + pad4(dec_of(i)) + ".png"@
}

/// How many digits a numeral has, for values around the pattern's width.
proof fn lemma_dec_len_small(i: nat)
    ensures
        i < 10 ==> dec_of(i).len() == 1,
        10 <= i < 100 ==> dec_of(i).len() == 2,
        100 <= i < 1000 ==> dec_of(i).len() == 3,
        1000 <= i < 10000 ==> dec_of(i).len() == 4,
        10000 <= i ==> dec_of(i).len() >= 5,
    decreases i,
{
    if i >= 10 {
        lemma_dec_len_small(i / 10);
    }
}

/// The name of the output file of ordinal `ordinal` (counting from one),
/// as the decoder's fixed-width pattern produces it.
pub fn frame_filename(ordinal: u64) -> (r: String)
    ensures
        r@ == frame_name_of(ordinal as nat),
{
    proof {
        lemma_dec_len_small(ordinal as nat);
        reveal_strlit("0");
        reveal_strlit("00");
        reveal_strlit("000");
        reveal_with_fuel(zeros, 4);
        assert(zeros(1) =~= "0"@);
        assert(zeros(2) =~= "00"@);
        assert(zeros(3) =~= "000"@);
        assert(zeros(0) =~= Seq::<char>::empty());
        if 4 - dec_of(ordinal as nat).len() < 0 {
            assert(zeros(4 - dec_of(ordinal as nat).len()) =~= Seq::<char>::empty());
        }
    }
    let mut s = "frame_".to_owned();
    if ordinal < 10 {
        s.append("000");
    } else if ordinal < 100 {
        s.append("00");
    } else if ordinal < 1000 {
        s.append("0");
    }
    push_decimal(&mut s, ordinal);
    s.append(".png");
    proof {
        assert(s@ =~= frame_name_of(ordinal as nat));
    }
    s
}

/// Ten to the `k`.
pub open spec fn pow10(k: nat) -> int
    decreases k,
{
    if k == 0 {
        1
    } else {
        10 * pow10((k - 1) as nat)
    }
}

/// A digit string's value is bounded by the power of ten of its length.
proof fn lemma_numeral_val_bound(s: Seq<char>)
    requires
        all_digits(s),
    ensures
        0 <= numeral_val(s) < pow10(s.len()),
    decreases s.len(),
{
    if s.len() > 0 {
        assert(all_digits(s.drop_last()));
        lemma_numeral_val_bound(s.drop_last());
        assert(is_digit(s.last()));
    }
}

/// A digit string's value, split at the first digit.
proof fn lemma_numeral_val_front(s: Seq<char>)
    requires
        s.len() >= 1,
    ensures
        numeral_val(s) == (s[0] as int - 48) * pow10((s.len() - 1) as nat) + numeral_val(
            s.drop_first(),
        ),
    decreases s.len(),
{
    if s.len() == 1 {
        assert(s.drop_last() =~= Seq::<char>::empty());
        assert(s.drop_first() =~= Seq::<char>::empty());
    } else {
        let hd = s[0] as int - 48;
        let k = (s.len() - 2) as nat;
        lemma_numeral_val_front(s.drop_last());
        assert(s.drop_last()[0] == s[0]);
        assert(s.drop_last().drop_first() =~= s.drop_first().drop_last());
        assert(s.drop_first().last() == s.last());
        assert(numeral_val(s.drop_first()) == numeral_val(s.drop_first().drop_last()) * 10 + (
        s.last() as int - 48));
        assert(numeral_val(s) == numeral_val(s.drop_last()) * 10 + (s.last() as int - 48));
        assert(numeral_val(s.drop_last()) == hd * pow10(k) + numeral_val(
            s.drop_first().drop_last(),
        ));
        assert((hd * pow10(k) + numeral_val(s.drop_first().drop_last())) * 10 == hd * pow10(k)
            * 10 + numeral_val(s.drop_first().drop_last()) * 10) by (nonlinear_arith);
        lemma_mul_is_associative(hd, pow10(k), 10);
        assert(pow10(k) * 10 == pow10((s.len() - 1) as nat));
    }
}

/// Prepending zeros does not change a digit string's value.
proof fn lemma_numeral_val_pad(k: int, s: Seq<char>)
    ensures
        numeral_val(zeros(k) + s) == numeral_val(s),
    decreases s.len(),
{
    if k <= 0 {
        assert(zeros(k) + s =~= s);
    } else if s.len() == 0 {
        lemma_zeros_val(k);
        assert(zeros(k) + s =~= zeros(k));
    } else {
        lemma_numeral_val_pad(k, s.drop_last());
        assert((zeros(k) + s).drop_last() =~= zeros(k) + s.drop_last());
        assert((zeros(k) + s).last() == s.last());
    }
}

/// A string of zeros has value zero (and is made of digits).
proof fn lemma_zeros_val(k: int)
    ensures
        numeral_val(zeros(k)) == 0,
        all_digits(zeros(k)),
        zeros(k).len() == if k <= 0 { 0int } else { k },
    decreases k,
{
    if k > 0 {
        lemma_zeros_val(k - 1);
        assert(zeros(k).drop_first() =~= zeros(k - 1));
        assert(zeros(k)[0] == '0');
        lemma_numeral_val_front(zeros(k));
        assert forall|t: int| 0 <= t < zeros(k).len() implies is_digit(#[trigger] zeros(k)[t]) by {
            if t > 0 {
                assert(zeros(k)[t] == zeros(k - 1)[t - 1]);
            }
        }
    }
}

/// Equal-length digit strings compare lexicographically as their values.
proof fn lemma_digit_seq_order(a: Seq<char>, b: Seq<char>)
    requires
        a.len() == b.len(),
        all_digits(a),
        all_digits(b),
        numeral_val(a) < numeral_val(b),
    ensures
        lex_lt(a, b),
    decreases a.len(),
{
    lemma_numeral_val_front(a);
    lemma_numeral_val_front(b);
    assert(all_digits(a.drop_first()));
    assert(all_digits(b.drop_first()));
    lemma_numeral_val_bound(a.drop_first());
    lemma_numeral_val_bound(b.drop_first());
    let k = (a.len() - 1) as nat;
    if a[0] == b[0] {
        lemma_digit_seq_order(a.drop_first(), b.drop_first());
        assert(lex_le(a, b));
        assert(a != b) by {
            assert(numeral_val(a) != numeral_val(b));
        }
    } else if (a[0] as int) < (b[0] as int) {
        assert(lex_le(a, b));
        assert(a != b) by {
            assert(a[0] != b[0]);
        }
    } else {
        let ha = a[0] as int - 48;
        let hb = b[0] as int - 48;
        assert(hb < ha);
        assert((hb + 1) * pow10(k) <= ha * pow10(k)) by (nonlinear_arith)
            requires
                hb + 1 <= ha,
                pow10(k) > 0,
        ;
        assert(pow10(k) > 0) by {
            lemma_pow10_pos(k);
        }
        assert((hb + 1) * pow10(k) == hb * pow10(k) + pow10(k)) by (nonlinear_arith);
        assert(false);
    }
}

/// Ten to any power is positive.
proof fn lemma_pow10_pos(k: nat)
    ensures
        pow10(k) >= 1,
    decreases k,
{
    if k > 0 {
        lemma_pow10_pos((k - 1) as nat);
    }
}

/// Fixed-width zero-padded names sort in extraction order: the name of an
/// earlier ordinal is lexicographically below the name of a later one.
/// This holds for ordinals up to 9999, the width the pattern guarantees;
/// so the sorted file names of the collector correspond position by
/// position to the planned indices, which are ascending as well.
pub proof fn lemma_frame_name_order(i: nat, j: nat)
    requires
        1 <= i < j,
        j <= 9999,
    ensures
        lex_lt(frame_name_of(i), frame_name_of(j)),
{
    let a = pad4(dec_of(i));
    let b = pad4(dec_of(j));
    lemma_dec_of_digits(i);
    lemma_dec_of_digits(j);
    lemma_dec_of_len_9999(i);
    lemma_dec_of_len_9999(j);
    lemma_zeros_val(4 - dec_of(i).len());
    lemma_zeros_val(4 - dec_of(j).len());
    assert(a.len() == 4);
    assert(b.len() == 4);
    assert(all_digits(a)) by {
        assert(forall|t: int|
            0 <= t < a.len() ==> #[trigger] a[t] == if t < zeros(4 - dec_of(i).len()).len() {
                zeros(4 - dec_of(i).len())[t]
            } else {
                dec_of(i)[t - zeros(4 - dec_of(i).len()).len()]
            });
    }
    assert(all_digits(b)) by {
        assert(forall|t: int|
            0 <= t < b.len() ==> #[trigger] b[t] == if t < zeros(4 - dec_of(j).len()).len() {
                zeros(4 - dec_of(j).len())[t]
            } else {
                dec_of(j)[t - zeros(4 - dec_of(j).len()).len()]
            });
    }
    lemma_numeral_val_pad(4 - dec_of(i).len(), dec_of(i));
    lemma_numeral_val_pad(4 - dec_of(j).len(), dec_of(j));
    lemma_dec_of_val(i);
    lemma_dec_of_val(j);
    lemma_digit_seq_order(a, b);
    lemma_lex_lt_middle("frame_"@, a, b, ".png"@);
}

/// The names of the decoder's output files for ordinals 1 through `n`,
/// in extraction order.
pub open spec fn ordinal_names(n: nat) -> Seq<Seq<char>> {
    Seq::new(n, |i: int| frame_name_of((i + 1) as nat))
}

/// Round-trip: a listing that holds exactly the decoder's `n` output
/// files, once sorted into ascending name order, is extraction order
/// itself — position `i` holds the file of ordinal `i + 1`, the file
/// that the planned index at position `i` produced.  As everywhere the
/// fixed width guarantees this, `n` stays within it.
pub proof fn lemma_sorted_names_are_ordinal(w: Seq<Seq<char>>, n: nat)
    requires
        n <= 9999,
        w.to_multiset() == ordinal_names(n).to_multiset(),
        forall|i: int, j: int| 0 <= i < j < w.len() ==> lex_le(#[trigger] w[i], #[trigger] w[j]),
    ensures
        w == ordinal_names(n),
    decreases n,
{
    broadcast use vstd::seq_lib::group_to_multiset_ensures;

    let t = ordinal_names(n);
    assert(w.len() == w.to_multiset().len());
    assert(t.len() == t.to_multiset().len());
    if n == 0 {
        assert(w =~= t);
    } else {
        let last_name = frame_name_of(n);
        assert(t[n - 1] == last_name);
        assert(t.contains(last_name));
        assert(t.to_multiset().count(last_name) > 0);
        assert(w.to_multiset().count(last_name) > 0);
        assert(w.contains(last_name));
        let p = choose|p: int| 0 <= p < w.len() && w[p] == last_name;
        assert(w.contains(w.last()));
        assert(w.to_multiset().count(w.last()) > 0);
        assert(t.to_multiset().count(w.last()) > 0);
        assert(t.contains(w.last()));
        let q = choose|q: int| 0 <= q < t.len() && t[q] == w.last();
        assert(w.last() == frame_name_of((q + 1) as nat));
        if p < w.len() - 1 {
            assert(lex_le(w[p], w.last()));
        }
        if q + 1 < n {
            lemma_frame_name_order((q + 1) as nat, n);
            crate::order::lemma_lex_antisym(last_name, frame_name_of((q + 1) as nat));
            assert(false);
        }
        assert(w.last() == last_name);
        let w2 = w.drop_last();
        let t2 = t.drop_last();
        assert(w.remove(w.len() - 1) =~= w2);
        assert(t.remove(t.len() - 1) =~= t2);
        assert(w2.to_multiset() == w.to_multiset().remove(w.last()));
        assert(t2.to_multiset() == t.to_multiset().remove(t.last()));
        assert(t2 =~= ordinal_names((n - 1) as nat));
        assert forall|i: int, j: int| 0 <= i < j < w2.len() implies lex_le(
            #[trigger] w2[i],
            #[trigger] w2[j],
        ) by {
            assert(lex_le(w[i], w[j]));
        }
        lemma_sorted_names_are_ordinal(w2, (n - 1) as nat);
        assert forall|i: int| 0 <= i < n implies w[i] == t[i] by {
            if i < n - 1 {
                assert(w2[i] == w[i]);
                assert(w2[i] == ordinal_names((n - 1) as nat)[i]);
            } else {
                assert(w[i] == w.last());
                assert(t[i] == last_name);
            }
        }
        assert(w =~= t);
    }
}

/// A shared prefix and suffix around ordered middles keeps the order.
proof fn lemma_lex_lt_middle(p: Seq<char>, a: Seq<char>, b: Seq<char>, q: Seq<char>)
    requires
        a.len() == b.len(),
        lex_lt(a, b),
    ensures
        lex_lt(p + a + q, p + b + q),
    decreases p.len() + a.len(),
{
    if p.len() > 0 {
        lemma_lex_lt_middle(p.drop_first(), a, b, q);
        assert((p + a + q).drop_first() =~= p.drop_first() + a + q);
        assert((p + b + q).drop_first() =~= p.drop_first() + b + q);
        assert((p + a + q)[0] == p[0]);
        assert((p + b + q)[0] == p[0]);
    } else {
        if a.len() == 0 {
            assert(a =~= b);
        }
        assert(a.len() > 0);
        if (a[0] as int) < (b[0] as int) {
            assert((p + a + q)[0] == a[0]);
            assert((p + b + q)[0] == b[0]);
            assert(lex_le(p + a + q, p + b + q));
            assert((p + a + q) != (p + b + q)) by {
                assert((p + a + q)[0] != (p + b + q)[0]);
            }
        } else {
            assert(a[0] == b[0]);
            assert(lex_lt(a.drop_first(), b.drop_first())) by {
                assert(lex_le(a.drop_first(), b.drop_first()));
                assert(a != b);
                assert(a.drop_first() != b.drop_first()) by {
                    if a.drop_first() == b.drop_first() {
                        assert(a =~= seq![a[0]] + a.drop_first());
                        assert(b =~= seq![b[0]] + b.drop_first());
                        assert(a == b);
                    }
                }
            }
            lemma_lex_lt_middle(Seq::empty(), a.drop_first(), b.drop_first(), q);
            assert((p + a + q).drop_first() =~= Seq::<char>::empty() + a.drop_first() + q);
            assert((p + b + q).drop_first() =~= Seq::<char>::empty() + b.drop_first() + q);
            assert((p + a + q)[0] == (p + b + q)[0]);
            assert(lex_le(p + a + q, p + b + q));
            assert((p + a + q) != (p + b + q)) by {
                let ea = Seq::<char>::empty() + a.drop_first() + q;
                let eb = Seq::<char>::empty() + b.drop_first() + q;
                assert(ea != eb);
            }
        }
    }
}

} // verus!
