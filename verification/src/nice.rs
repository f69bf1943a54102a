//! Nice numbers: the numbers 1, 2 and 5 times a power of ten, and the
//! rounding of a positive fraction to one of them.

use crate::arith::{
    lemma_pow10_exponent_below, lemma_pow10_increases, lemma_pow10_positive, lemma_pow10_values,
    pow10, power_of_ten,
};
use vstd::prelude::*;

verus! {

/// Whether the fraction `num / den` is at least the power of ten with
/// exponent `e`, which may be negative.
pub open spec fn at_least_pow10(num: nat, den: nat, e: int) -> bool {
    if e >= 0 {
        num >= den * pow10(e as nat)
    } else {
        num * pow10((-e) as nat) >= den
    }
}

/// Whether `e` is the decimal exponent of the fraction `num / den`: the
/// fraction is at least `10^e` and less than `10^(e+1)`.
pub open spec fn in_decade(num: nat, den: nat, e: int) -> bool {
    at_least_pow10(num, den, e) && !at_least_pow10(num, den, e + 1)
}

/// The decimal exponent of a positive fraction `num / den`: the floor of
/// its logarithm to base ten.
pub open spec fn decade(num: nat, den: nat) -> int {
    choose|e: int| in_decade(num, den, e)
}

/// The numerator of `(num / den) / 10^e`, the fraction brought between 1
/// and 10.
pub open spec fn leading_numer(num: nat, e: int) -> nat {
    if e >= 0 {
        num
    } else {
        num * pow10((-e) as nat)
    }
}

/// The denominator of `(num / den) / 10^e`.
pub open spec fn leading_denom(den: nat, e: int) -> nat {
    if e >= 0 {
        den * pow10(e as nat)
    } else {
        den
    }
}

/// The member of 1, 2, 5, 10 that a leading fraction `numer / denom`
/// between 1 and 10 rounds to: 1 below 1.5, 2 below 3, 5 below 7, else 10.
pub open spec fn snapped_nearest(numer: nat, denom: nat) -> nat {
    if 2 * numer < 3 * denom {
        1
    } else if numer < 3 * denom {
        2
    } else if numer < 7 * denom {
        5
    } else {
        10
    }
}

/// The least member of 1, 2, 5, 10 that is not below a leading fraction
/// `numer / denom` between 1 and 10.
pub open spec fn snapped_up(numer: nat, denom: nat) -> nat {
    if numer <= denom {
        1
    } else if numer <= 2 * denom {
        2
    } else if numer <= 5 * denom {
        5
    } else {
        10
    }
}

/// A nice number: `mantissa * 10^exponent` with a mantissa of 1, 2 or 5.
#[derive(Debug, Clone, Copy, PartialEq, Eq, Structural)]
pub struct NiceNum {
    pub mantissa: u8,
    pub exponent: i8,
}

impl NiceNum {
    /// The mantissa is 1, 2 or 5, and the exponent lies between -20 and
    /// 20: the nice numbers of the fractions of two 64-bit numbers.
    pub open spec fn wf(&self) -> bool {
        &&& self.mantissa == 1 || self.mantissa == 2 || self.mantissa == 5
        &&& -20 <= self.exponent <= 20
    }

    /// The numerator of the number, written as a fraction over a power of
    /// ten.
    pub open spec fn numer(&self) -> nat {
        if self.exponent >= 0 {
            self.mantissa as nat * pow10(self.exponent as nat)
        } else {
            self.mantissa as nat
        }
    }

    /// The denominator of the number: 1 for a whole number, else the
    /// power of ten that the exponent asks for.
    pub open spec fn denom(&self) -> nat {
        if self.exponent >= 0 {
            1
        } else {
            pow10((-self.exponent) as nat)
        }
    }

    /// The nice number `snapped * 10^e`, where `snapped` is 1, 2, 5 or 10;
    /// ten is written as 1 with the next exponent.
    pub open spec fn normal(snapped: nat, e: int) -> NiceNum {
        if snapped == 10 {
            NiceNum { mantissa: 1, exponent: (e + 1) as i8 }
        } else {
            NiceNum { mantissa: snapped as u8, exponent: e as i8 }
        }
    }
}

/// The nice number of a positive fraction `num / den`: its leading
/// fraction snapped to 1, 2, 5 or 10 (to the nearest where `round` is set,
/// else upwards), times the power of ten of its decade.
pub open spec fn spec_nice_num(num: nat, den: nat, round: bool) -> NiceNum {
    let e = decade(num, den);
    let numer = leading_numer(num, e);
    let denom = leading_denom(den, e);
    NiceNum::normal(
        if round {
            snapped_nearest(numer, denom)
        } else {
            snapped_up(numer, denom)
        },
        e,
    )
}

/// A fraction that reaches a power of ten reaches the one before it.
proof fn lemma_at_least_step(num: nat, den: nat, e: int)
    requires
        at_least_pow10(num, den, e + 1),
    ensures
        at_least_pow10(num, den, e),
{
    if e >= 0 {
        let p = pow10(e as nat);
        assert(pow10((e + 1) as nat) == 10 * p);
        assert(den * (10 * p) >= den * p) by (nonlinear_arith);
    } else if e == -1 {
        assert(pow10(0) == 1);
        assert(pow10(1) == 10 * pow10(0));
        assert(den * 1 == den) by (nonlinear_arith);
        assert(num * 10 >= num) by (nonlinear_arith);
    } else {
        let p = pow10((-e - 1) as nat);
        assert(pow10((-e) as nat) == 10 * p);
        assert(num * (10 * p) >= num * p) by (nonlinear_arith);
    }
}

/// A fraction that reaches a power of ten reaches every smaller one.
pub proof fn lemma_at_least_below(num: nat, den: nat, low: int, high: int)
    requires
        low <= high,
        at_least_pow10(num, den, high),
    ensures
        at_least_pow10(num, den, low),
    decreases high - low,
{
    if low < high {
        lemma_at_least_step(num, den, high - 1);
        lemma_at_least_below(num, den, low, high - 1);
    }
}

/// Every positive fraction lies in a decade, so that `decade` names it.
pub proof fn lemma_decade_exists(num: nat, den: nat)
    requires
        num > 0,
        den > 0,
    ensures
        in_decade(num, den, decade(num, den)),
{
    assert(pow10(0) == 1);
    assert(den * 1 == den && num * 1 == num) by (nonlinear_arith);
    if num >= den {
        lemma_decade_upwards(num, den, 0);
    } else {
        lemma_decade_downwards(num, den, 0);
    }
}

/// A fraction that reaches `10^e` lies in the decade `e` or in one above.
proof fn lemma_decade_upwards(num: nat, den: nat, e: nat)
    requires
        den > 0,
        at_least_pow10(num, den, e as int),
    ensures
        exists|d: int| in_decade(num, den, d),
    decreases num - den * pow10(e),
{
    if at_least_pow10(num, den, e as int + 1) {
        let p = pow10(e);
        lemma_pow10_positive(e);
        assert(pow10(e + 1) == 10 * p);
        assert(den * (10 * p) > den * p) by (nonlinear_arith)
            requires
                den > 0,
                p > 0,
        ;
        lemma_decade_upwards(num, den, e + 1);
    } else {
        assert(in_decade(num, den, e as int));
    }
}

/// A positive fraction below `10^-k` lies in a decade below `-k`.
proof fn lemma_decade_downwards(num: nat, den: nat, k: nat)
    requires
        num > 0,
        !at_least_pow10(num, den, -(k as int)),
    ensures
        exists|d: int| in_decade(num, den, d),
    decreases den - num * pow10(k),
{
    let p = pow10(k);
    lemma_pow10_positive(k);
    assert(pow10(0) == 1);
    assert(num * 1 == num && den * 1 == den) by (nonlinear_arith);
    assert(num * p < den);
    assert(pow10(k + 1) == 10 * p);
    assert(num * (10 * p) > num * p) by (nonlinear_arith)
        requires
            num > 0,
            p > 0,
    ;
    if at_least_pow10(num, den, -(k as int) - 1) {
        assert(in_decade(num, den, -(k as int) - 1));
    } else {
        lemma_decade_downwards(num, den, k + 1);
    }
}

/// A fraction lies in one decade only.
pub proof fn lemma_decade_unique(num: nat, den: nat, e: int)
    requires
        in_decade(num, den, e),
    ensures
        decade(num, den) == e,
{
    let c = decade(num, den);
    assert(in_decade(num, den, c));
    if c < e {
        lemma_at_least_below(num, den, c + 1, e);
    } else if c > e {
        lemma_at_least_below(num, den, e + 1, c);
    }
}

/// The nice number of a fraction with a numerator of at most `10^20` and
/// a 64-bit denominator is well formed, and where its exponent is 20 it is
/// `10^20` itself.
pub proof fn lemma_nice_num_wf(num: nat, den: nat, round: bool)
    requires
        0 < num <= pow10(20),
        0 < den < 0x1_0000_0000_0000_0000,
    ensures
        spec_nice_num(num, den, round).wf(),
        spec_nice_num(num, den, round).exponent == 20 ==> spec_nice_num(num, den, round).mantissa
            == 1,
        in_decade(num, den, decade(num, den)),
        -20 <= decade(num, den) <= 20,
{
    lemma_decade_exists(num, den);
    lemma_pow10_values();
    let d = decade(num, den);
    if d >= 0 {
        let p = pow10(d as nat);
        assert(den * p >= p) by (nonlinear_arith)
            requires
                den >= 1,
                p >= 0,
        ;
        lemma_pow10_exponent_below(d as nat, 21);
        if d == 20 {
            assert(leading_numer(num, d) <= leading_denom(den, d));
        }
    } else if d < -1 {
        let p = pow10((-d - 1) as nat);
        assert(num * p >= p) by (nonlinear_arith)
            requires
                num >= 1,
                p >= 0,
        ;
        lemma_pow10_exponent_below((-d - 1) as nat, 20);
    }
}

/// Raising to a nice number is steady: every whole number between `n` and
/// the nice number that `n` is raised to is raised to the same.
pub proof fn lemma_nice_raise_steady(n: nat, other: nat)
    requires
        0 < n <= other,
        other <= spec_nice_num(n, 1, false).numer(),
        n <= pow10(20),
    ensures
        spec_nice_num(other, 1, false) == spec_nice_num(n, 1, false),
{
    lemma_nice_num_wf(n, 1, false);
    lemma_pow10_values();
    let d = decade(n, 1);
    assert(n * 1 == n && other * 1 == other) by (nonlinear_arith);
    assert(at_least_pow10(n, 1, 0));
    lemma_decade_at_least(n, 1, 0);
    let p = pow10(d as nat);
    let next = pow10((d + 1) as nat);
    assert(next == 10 * p);
    assert(1 * p == p && 1 * next == next) by (nonlinear_arith);
    let snapped = snapped_up(n, p);
    let nice = spec_nice_num(n, 1, false);
    if snapped == 10 {
        assert(nice.mantissa == 1 && nice.exponent == d + 1);
        assert(nice.numer() == next) by (nonlinear_arith)
            requires
                nice.numer() == nice.mantissa * next,
                nice.mantissa == 1,
        ;
    } else {
        assert(nice.mantissa == snapped && nice.exponent == d);
        assert(nice.numer() == snapped * p);
    }
    if other < next {
        assert(in_decade(other, 1, d));
        lemma_decade_unique(other, 1, d);
        assert(snapped_up(other, p) == snapped) by {
            if snapped == 1 {
                assert(1 * p == p) by (nonlinear_arith);
            }
        }
    } else {
        assert(other == next);
        let after = pow10((d + 2) as nat);
        assert(after == 10 * next);
        assert(1 * after == after) by (nonlinear_arith);
        assert(in_decade(other, 1, d + 1));
        lemma_decade_unique(other, 1, d + 1);
        assert(snapped_up(other, next) == 1);
    }
}

/// The nice number of the fraction `num / den`, or `None` where the
/// fraction is not positive.
pub fn nice_num(num: u64, den: u64, round: bool) -> (res: Option<NiceNum>)
    ensures
        num > 0 && den > 0 ==> res == Some(spec_nice_num(num as nat, den as nat, round)),
        num == 0 || den == 0 ==> res is None,
        res is Some ==> res.unwrap().wf(),
{
    if num == 0 || den == 0 {
        None
    } else {
        proof {
            lemma_pow10_values();
        }
        Some(nice_num_wide(num as u128, den as u128, round))
    }
}

/// The nice number of a positive fraction whose numerator is at most
/// `10^20`.
pub(crate) fn nice_num_wide(num: u128, den: u128, round: bool) -> (nice: NiceNum)
    requires
        0 < num <= pow10(20),
        0 < den < 0x1_0000_0000_0000_0000,
    ensures
        nice == spec_nice_num(num as nat, den as nat, round),
        nice.wf(),
        nice.exponent == 20 ==> nice.mantissa == 1,
        in_decade(num as nat, den as nat, decade(num as nat, den as nat)),
        -20 <= decade(num as nat, den as nat) <= 20,
{
    let mut e: i8 = 0;
    let mut numer: u128 = num;
    let mut denom: u128 = den;
    proof {
        lemma_pow10_values();
        assert(den * 1 == den) by (nonlinear_arith);
        assert(num * 1 == num) by (nonlinear_arith);
    }
    if num >= den {
        while denom <= num / 10
            invariant
                0 <= e <= 20,
                0 < den,
                num <= pow10(20),
                denom == den * pow10(e as nat),
                0 < denom <= num,
            decreases num - denom,
        {
            proof {
                let p = pow10(e as nat);
                assert(pow10((e + 1) as nat) == 10 * p);
                assert(den * (10 * p) == 10 * (den * p)) by (nonlinear_arith);
                assert(den * (10 * p) >= 10 * p) by (nonlinear_arith)
                    requires
                        den >= 1,
                ;
                lemma_pow10_increases(20, 21);
                lemma_pow10_exponent_below((e + 1) as nat, 21);
            }
            denom = denom * 10;
            e = e + 1;
        }
        proof {
            let p = pow10(e as nat);
            assert(pow10((e + 1) as nat) == 10 * p);
            assert(den * (10 * p) == 10 * (den * p)) by (nonlinear_arith);
            assert(in_decade(num as nat, den as nat, e as int));
        }
    } else {
        assert(!at_least_pow10(num as nat, den as nat, 1)) by {
            assert(den * 10 > num);
        }
        while numer < den
            invariant
                -20 <= e <= 0,
                0 < num,
                den < 0x1_0000_0000_0000_0000,
                numer == num * pow10((-e) as nat),
                0 < numer < 10 * den,
                !at_least_pow10(num as nat, den as nat, e + 1),
            decreases e + 20,
        {
            proof {
                let p = pow10((-e) as nat);
                if e == 0 {
                    assert(den * 1 == den) by (nonlinear_arith);
                    assert(num * 1 == num) by (nonlinear_arith);
                }
                assert(!at_least_pow10(num as nat, den as nat, e as int));
                assert(pow10((-e + 1) as nat) == 10 * p);
                assert(num * (10 * p) == 10 * (num * p)) by (nonlinear_arith);
                assert(num * p >= p) by (nonlinear_arith)
                    requires
                        num >= 1,
                ;
                lemma_pow10_values();
                lemma_pow10_exponent_below((-e) as nat, 20);
            }
            numer = numer * 10;
            e = e - 1;
        }
        proof {
            assert(in_decade(num as nat, den as nat, e as int));
        }
    }
    proof {
        lemma_decade_unique(num as nat, den as nat, e as int);
        assert(numer == leading_numer(num as nat, e as int));
        assert(denom == leading_denom(den as nat, e as int));
        assert(numer < pow10(21) && denom < pow10(21));
        lemma_nice_num_wf(num as nat, den as nat, round);
    }
    let snapped: u8 = if round {
        if 2 * numer < 3 * denom {
            1
        } else if numer < 3 * denom {
            2
        } else if numer < 7 * denom {
            5
        } else {
            10
        }
    } else {
        if numer <= denom {
            1
        } else if numer <= 2 * denom {
            2
        } else if numer <= 5 * denom {
            5
        } else {
            10
        }
    };
    if snapped == 10 {
        NiceNum { mantissa: 1, exponent: e + 1 }
    } else {
        NiceNum { mantissa: snapped, exponent: e }
    }
}

/// A fraction that reaches `10^low` has a decade of at least `low`.
pub proof fn lemma_decade_at_least(num: nat, den: nat, low: int)
    requires
        in_decade(num, den, decade(num, den)),
        at_least_pow10(num, den, low),
    ensures
        decade(num, den) >= low,
{
    let c = decade(num, den);
    if c < low {
        lemma_at_least_below(num, den, c + 1, low);
    }
}

/// What the two parts of a whole nice number amount to.
pub(crate) fn whole_value(nice: NiceNum) -> (value: u128)
    requires
        nice.wf(),
        nice.exponent >= 0,
    ensures
        value == nice.numer(),
        nice.denom() == 1,
        1 <= value <= 5 * pow10(20),
        nice.mantissa == 1 ==> value <= pow10(20),
        nice.exponent < 20 ==> value <= pow10(20),
{
    let power = power_of_ten(nice.exponent as u8);
    proof {
        lemma_pow10_values();
        lemma_pow10_positive(nice.exponent as nat);
        lemma_pow10_increases(nice.exponent as nat, 20);
        assert(nice.mantissa * power <= 5 * pow10(20) && nice.mantissa * power >= 1)
            by (nonlinear_arith)
            requires
                1 <= nice.mantissa <= 5,
                1 <= power <= pow10(20),
        ;
        if nice.mantissa == 1 {
            assert(nice.mantissa * power == power) by (nonlinear_arith)
                requires
                    nice.mantissa == 1,
            ;
        }
        if nice.exponent < 20 {
            lemma_pow10_increases(nice.exponent as nat, 19);
            assert(pow10(20) == 10 * pow10(19));
            assert(nice.mantissa * power <= 5 * pow10(19)) by (nonlinear_arith)
                requires
                    1 <= nice.mantissa <= 5,
                    1 <= power <= pow10(19),
            ;
        }
    }
    nice.mantissa as u128 * power
}

} // verus!
