//! Decimal numerals: rendering unsigned values as digit strings and the
//! value of a digit string, the two directions the pipeline needs (frame
//! indices rendered into a selection expression, and the probe's textual
//! frame count read back as a number).

use vstd::prelude::*;

verus! {

/// The decimal digit character for a value below ten.
pub open spec fn digit_char(d: int) -> char {
    if d == 0 {
        '0'
    } else if d == 1 {
        '1'
    } else if d == 2 {
        '2'
    } else if d == 3 {
        '3'
    } else if d == 4 {
        '4'
    } else if d == 5 {
        '5'
    } else if d == 6 {
        '6'
    } else if d == 7 {
        '7'
    } else if d == 8 {
        '8'
    } else {
        '9'
    }
}

/// The decimal numeral of `n`, most significant digit first, with no sign
/// and no leading zero (the numeral of zero is `0` itself).
pub open spec fn dec_of(n: nat) -> Seq<char>
    decreases n,
{
    if n < 10 {
        seq![digit_char(n as int)]
    } else {
        dec_of(n / 10) + seq![digit_char((n % 10) as int)]
    }
}

/// Whether `c` is a decimal digit character.
pub open spec fn is_digit(c: char) -> bool {
    48 <= c as int && c as int <= 57
}

/// Whether every character of `s` is a decimal digit.
pub open spec fn all_digits(s: Seq<char>) -> bool {
    forall|i: int| 0 <= i < s.len() ==> is_digit(#[trigger] s[i])
}

/// The numeric value of a digit string, most significant digit first.
pub open spec fn numeral_val(s: Seq<char>) -> int
    decreases s.len(),
{
    if s.len() == 0 {
        0
    } else {
        numeral_val(s.drop_last()) * 10 + (s.last() as int - 48)
    }
}

/// A one-character string slice holding the digit `d`.
pub fn digit_str(d: u64) -> (r: &'static str)
    requires
        d < 10,
    ensures
        r@ =~= seq![digit_char(d as int)],
{
    proof {
        reveal_strlit("0");
        reveal_strlit("1");
        reveal_strlit("2");
        reveal_strlit("3");
        reveal_strlit("4");
        reveal_strlit("5");
        reveal_strlit("6");
        reveal_strlit("7");
        reveal_strlit("8");
        reveal_strlit("9");
    }
    match d {
        0 => "0",
        1 => "1",
        2 => "2",
        3 => "3",
        4 => "4",
        5 => "5",
        6 => "6",
        7 => "7",
        8 => "8",
        _ => "9",
    }
}

/// Appends the decimal numeral of `n` to `s`.
pub fn push_decimal(s: &mut String, n: u64)
    ensures
        final(s)@ == old(s)@ + dec_of(n as nat),
    decreases n,
{
    if n >= 10 {
        push_decimal(s, n / 10);
        s.append(digit_str(n % 10));
        proof {
            assert(final(s)@ =~= old(s)@ + dec_of(n as nat));
        }
    } else {
        s.append(digit_str(n));
        proof {
            assert(final(s)@ =~= old(s)@ + dec_of(n as nat));
        }
    }
}

/// Every character of a decimal numeral is a digit.
pub proof fn lemma_dec_of_digits(n: nat)
    ensures
        all_digits(dec_of(n)),
        dec_of(n).len() >= 1,
    decreases n,
{
    if n >= 10 {
        lemma_dec_of_digits(n / 10);
    }
}

/// A digit character carries the value it stands for.
pub proof fn lemma_digit_char_val(d: int)
    requires
        0 <= d <= 9,
    ensures
        digit_char(d) as int == 48 + d,
        is_digit(digit_char(d)),
{
}

/// The value of a numeral is the number it was rendered from.
pub proof fn lemma_dec_of_val(n: nat)
    ensures
        numeral_val(dec_of(n)) == n,
    decreases n,
{
    if n < 10 {
        let s = dec_of(n);
        assert(s =~= seq![digit_char(n as int)]);
        assert(s.drop_last() =~= Seq::<char>::empty());
        assert(numeral_val(s.drop_last()) == 0);
        lemma_digit_char_val(n as int);
        assert(numeral_val(s) == numeral_val(s.drop_last()) * 10 + (s.last() as int - 48));
    } else {
        lemma_dec_of_val(n / 10);
        assert(dec_of(n).drop_last() =~= dec_of(n / 10));
        assert(dec_of(n).last() == digit_char((n % 10) as int));
        lemma_digit_char_val((n % 10) as int);
        assert(numeral_val(dec_of(n)) == numeral_val(dec_of(n).drop_last()) * 10 + (dec_of(
            n,
        ).last() as int - 48));
    }
}

/// Numerals do not get shorter as the value grows.
pub proof fn lemma_dec_of_len_le(a: nat, b: nat)
    requires
        a <= b,
    ensures
        dec_of(a).len() <= dec_of(b).len(),
    decreases b,
{
    if a >= 10 {
        lemma_dec_of_len_le(a / 10, b / 10);
    }
}

/// A value below `10^k` has a numeral of at most `k` digits (k up to four,
/// which is all the fixed-width frame names need).
pub proof fn lemma_dec_of_len_9999(n: nat)
    requires
        n <= 9999,
    ensures
        dec_of(n).len() <= 4,
{
    lemma_dec_of_len_le(n, 9999);
    reveal_with_fuel(dec_of, 5);
    assert(dec_of(9999nat).len() == 4);
}

} // verus!
