//! Decimal notation of fixed-point numbers, and what its digits denote.

use crate::arith::{lemma_pow10_positive, pow10, power_of_ten};
use vstd::prelude::*;

verus! {

/// Appends one character to a string.
///
/// Trusted: stands for `String::push` of the standard library, which
/// appends the given `char` to the end of the string and changes nothing
/// else.
#[verifier::external_body]
pub(crate) fn push_char(s: &mut String, c: char)
    ensures
        final(s)@ == old(s)@.push(c),
{
    s.push(c)
}

/// The character that writes the decimal digit `d`.
pub open spec fn digit_char(d: nat) -> char {
    (d + 48) as char
}

/// The decimal digits of a natural number, without leading zeros; zero is
/// written `0`.
pub open spec fn natural_text(n: nat) -> Seq<char>
    decreases n,
{
    if n < 10 {
        seq![digit_char(n)]
    } else {
        natural_text(n / 10).push(digit_char(n % 10))
    }
}

/// The last `width` decimal digits of `n`, with leading zeros where `n`
/// has fewer.
pub open spec fn padded_text(n: nat, width: nat) -> Seq<char>
    decreases width,
{
    if width == 0 {
        Seq::empty()
    } else {
        padded_text(n / 10, (width - 1) as nat).push(digit_char(n % 10))
    }
}

/// The digits after the decimal point of `n / 10^width`, for
/// `n < 10^width`, without trailing zeros; empty for zero.
pub open spec fn fraction_text(n: nat, width: nat) -> Seq<char>
    decreases width,
{
    if n == 0 || width == 0 {
        Seq::empty()
    } else if n % 10 == 0 {
        fraction_text(n / 10, (width - 1) as nat)
    } else {
        padded_text(n, width)
    }
}

/// The decimal notation of `value / 10^width`: a minus sign for a
/// negative number, the whole part, and, unless the fraction is zero, a
/// point and the digits of the fraction without trailing zeros.
pub open spec fn decimal_text(value: int, width: nat) -> Seq<char> {
    let magnitude = if value < 0 {
        (-value) as nat
    } else {
        value as nat
    };
    let whole = magnitude / pow10(width);
    let fraction = magnitude % pow10(width);
    let sign = if value < 0 {
        seq!['-']
    } else {
        Seq::empty()
    };
    let tail = if fraction == 0 {
        Seq::empty()
    } else {
        seq!['.'] + fraction_text(fraction, width)
    };
    sign + natural_text(whole) + tail
}

/// The number that a text of decimal digits denotes.
pub open spec fn digits_value(text: Seq<char>) -> nat
    decreases text.len(),
{
    if text.len() == 0 {
        0
    } else {
        digits_value(text.drop_last()) * 10 + (text.last() as nat - 48) as nat
    }
}

/// Whether every character of a text is a decimal digit.
pub open spec fn is_digits(text: Seq<char>) -> bool {
    forall|i: int| 0 <= i < text.len() ==> '0' <= #[trigger] text[i] <= '9'
}

/// The digits of a natural number denote it; they are at least one, and
/// the first is no zero but for the number zero.
pub proof fn lemma_natural_text_denotes(n: nat)
    ensures
        digits_value(natural_text(n)) == n,
        is_digits(natural_text(n)),
        natural_text(n).len() >= 1,
        n > 0 ==> natural_text(n)[0] != '0',
    decreases n,
{
    let text = natural_text(n);
    if n < 10 {
        assert(text.drop_last() =~= Seq::<char>::empty());
        assert(digits_value(Seq::<char>::empty()) == 0);
    } else {
        lemma_natural_text_denotes(n / 10);
        assert(text.drop_last() =~= natural_text(n / 10));
    }
}

/// The padded digits of a number are as many as asked for and denote the
/// number, less the multiples of `10^width` in it.
pub proof fn lemma_padded_text_denotes(n: nat, width: nat)
    ensures
        padded_text(n, width).len() == width,
        is_digits(padded_text(n, width)),
        digits_value(padded_text(n, width)) == n % pow10(width),
    decreases width,
{
    let text = padded_text(n, width);
    if width > 0 {
        let rest = (width - 1) as nat;
        lemma_padded_text_denotes(n / 10, rest);
        assert(text.drop_last() =~= padded_text(n / 10, rest));
        lemma_pow10_positive(rest);
        lemma_remainder_by_ten_times(n as int, pow10(rest) as int);
    }
}

/// The remainder by ten times a number, from the remainder of the tenth
/// by that number.
proof fn lemma_remainder_by_ten_times(n: int, p: int)
    requires
        n >= 0,
        p > 0,
    ensures
        n % (10 * p) == ((n / 10) % p) * 10 + n % 10,
{
    let tenth = n / 10;
    let q = tenth / p;
    let r = tenth % p;
    vstd::arithmetic::div_mod::lemma_fundamental_div_mod(tenth, p);
    vstd::arithmetic::div_mod::lemma_mod_bound(tenth, p);
    let low = r * 10 + n % 10;
    assert(n == (10 * p) * q + low && 0 <= low < 10 * p) by (nonlinear_arith)
        requires
            n == 10 * tenth + n % 10,
            0 <= n % 10 < 10,
            tenth == p * q + r,
            0 <= r < p,
            low == r * 10 + n % 10,
    ;
    vstd::arithmetic::div_mod::lemma_fundamental_div_mod_converse(n, 10 * p, q, low);
}

/// The digits of a fraction denote it, once the zeros that were dropped at
/// the end are counted in; unless the fraction is zero its last digit is
/// no zero.
pub proof fn lemma_fraction_text_denotes(n: nat, width: nat)
    requires
        n < pow10(width),
    ensures
        fraction_text(n, width).len() <= width,
        is_digits(fraction_text(n, width)),
        digits_value(fraction_text(n, width)) * pow10(
            (width - fraction_text(n, width).len()) as nat,
        ) == n,
        n > 0 ==> fraction_text(n, width).len() > 0 && fraction_text(n, width).last() != '0',
    decreases width,
{
    let text = fraction_text(n, width);
    assert(pow10(0) == 1);
    if n == 0 || width == 0 {
        assert(digits_value(text) * pow10(width) == 0) by (nonlinear_arith)
            requires
                digits_value(text) == 0,
        ;
    } else if n % 10 == 0 {
        let rest = (width - 1) as nat;
        lemma_fraction_text_denotes(n / 10, rest);
        let dropped = (rest - text.len()) as nat;
        assert(pow10(dropped + 1) == 10 * pow10(dropped));
        assert(digits_value(text) * (10 * pow10(dropped)) == 10 * (digits_value(text) * pow10(
            dropped,
        ))) by (nonlinear_arith);
    } else {
        lemma_padded_text_denotes(n, width);
        vstd::arithmetic::div_mod::lemma_small_mod(n, pow10(width));
        assert(digits_value(text) * 1 == digits_value(text)) by (nonlinear_arith);
        assert(text.last() == digit_char(n % 10));
    }
}

/// Appends the character of a decimal digit.
fn push_digit(s: &mut String, d: u8)
    requires
        d < 10,
    ensures
        final(s)@ == old(s)@.push(digit_char(d as nat)),
{
    push_char(s, (d + 48) as char);
}

/// Appends the decimal digits of a natural number.
fn push_natural(s: &mut String, n: u128)
    ensures
        final(s)@ == old(s)@ + natural_text(n as nat),
    decreases n,
{
    if n >= 10 {
        push_natural(s, n / 10);
    }
    push_digit(s, (n % 10) as u8);
    assert(s@ =~= old(s)@ + natural_text(n as nat));
}

/// Appends the last `width` decimal digits of a number.
fn push_padded(s: &mut String, n: u128, width: u8)
    ensures
        final(s)@ == old(s)@ + padded_text(n as nat, width as nat),
    decreases width,
{
    if width > 0 {
        push_padded(s, n / 10, width - 1);
        push_digit(s, (n % 10) as u8);
    }
    assert(s@ =~= old(s)@ + padded_text(n as nat, width as nat));
}

/// Appends the digits of a fraction, without trailing zeros.
fn push_fraction(s: &mut String, n: u128, width: u8)
    ensures
        final(s)@ == old(s)@ + fraction_text(n as nat, width as nat),
    decreases width,
{
    if n == 0 || width == 0 {
        assert(s@ =~= old(s)@ + fraction_text(n as nat, width as nat));
    } else if n % 10 == 0 {
        push_fraction(s, n / 10, width - 1);
    } else {
        push_padded(s, n, width);
    }
}

/// Appends the decimal notation of `value / 10^width`.
pub(crate) fn push_decimal(s: &mut String, value: i128, width: u8)
    requires
        width <= 31,
        value > i128::MIN,
    ensures
        final(s)@ == old(s)@ + decimal_text(value as int, width as nat),
{
    let magnitude: u128 = if value < 0 {
        (-value) as u128
    } else {
        value as u128
    };
    let unit = power_of_ten(width);
    proof {
        lemma_pow10_positive(width as nat);
    }
    let whole = magnitude / unit;
    let fraction = magnitude % unit;
    if value < 0 {
        push_char(s, '-');
    }
    push_natural(s, whole);
    if fraction != 0 {
        push_char(s, '.');
        push_fraction(s, fraction, width);
    }
    assert(s@ =~= old(s)@ + decimal_text(value as int, width as nat));
}

/// The decimal notation of `value / 10^width`.
pub fn decimal_string(value: i128, width: u8) -> (s: String)
    requires
        width <= 31,
        value > i128::MIN,
    ensures
        s@ == decimal_text(value as int, width as nat),
{
    let mut s = String::new();
    push_decimal(&mut s, value, width);
    s
}

} // verus!
