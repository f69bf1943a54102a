//! Powers of ten, rounded quotients and the integer square root.

use vstd::prelude::*;

verus! {

/// The power of ten with exponent `n`.
pub open spec fn pow10(n: nat) -> nat
    decreases n,
{
    if n == 0 {
        1
    } else {
        10 * pow10((n - 1) as nat)
    }
}

/// The quotient of `a` by a positive `b`, rounded down.
pub open spec fn floor_quotient(a: int, b: int) -> int {
    a / b
}

/// The quotient of `a` by a positive `b`, rounded up.
pub open spec fn ceil_quotient(a: int, b: int) -> int {
    -((-a) / b)
}

/// A power of ten is at least one.
pub proof fn lemma_pow10_positive(n: nat)
    ensures
        pow10(n) >= 1,
    decreases n,
{
    if n > 0 {
        lemma_pow10_positive((n - 1) as nat);
    }
}

/// A greater exponent gives a power of ten that is no smaller.
pub proof fn lemma_pow10_increases(a: nat, b: nat)
    requires
        a <= b,
    ensures
        pow10(a) <= pow10(b),
    decreases b,
{
    if a < b {
        lemma_pow10_increases(a, (b - 1) as nat);
    }
}

/// The powers of ten that this library computes with.
pub proof fn lemma_pow10_values()
    ensures
        pow10(0) == 1,
        pow10(1) == 10,
        pow10(2) == 100,
        pow10(3) == 1_000,
        pow10(6) == 1_000_000,
        pow10(20) == 100_000_000_000_000_000_000,
        pow10(21) == 1_000_000_000_000_000_000_000,
        pow10(31) == 10_000_000_000_000_000_000_000_000_000_000,
{
    reveal_with_fuel(pow10, 32);
}

/// An exponent whose power of ten stays below `pow10(limit)` is below
/// `limit`.
pub proof fn lemma_pow10_exponent_below(n: nat, limit: nat)
    requires
        pow10(n) < pow10(limit),
    ensures
        n < limit,
{
    if n >= limit {
        lemma_pow10_increases(limit, n);
    }
}

/// The power of ten with exponent `n`, for exponents up to 31.
pub fn power_of_ten(n: u8) -> (p: u128)
    requires
        n <= 31,
    ensures
        p == pow10(n as nat),
{
    let mut p: u128 = 1;
    let mut i: u8 = 0;
    while i < n
        invariant
            i <= n <= 31,
            p == pow10(i as nat),
        decreases n - i,
    {
        proof {
            lemma_pow10_increases(i as nat, 30);
            lemma_pow10_increases(30, 31);
            lemma_pow10_values();
        }
        p = p * 10;
        i = i + 1;
    }
    p
}

/// The quotient of `a` by `b`, rounded down.
pub fn floor_div(a: i128, b: i128) -> (q: i128)
    requires
        b > 0,
        a > i128::MIN,
    ensures
        q == floor_quotient(a as int, b as int),
        a >= 0 ==> 0 <= q <= a,
        a < 0 ==> a <= q < 0,
{
    if a >= 0 {
        proof {
            lemma_quotient_within(a as int, b as int);
        }
        a / b
    } else {
        let n: i128 = -a;
        let q: i128 = n / b;
        let r: i128 = n % b;
        proof {
            lemma_floor_of_negative(n as int, b as int);
            lemma_quotient_within(n as int, b as int);
        }
        if r == 0 {
            -q
        } else {
            -q - 1
        }
    }
}

/// The quotient of `a` by `b`, rounded up.
pub fn ceil_div(a: i128, b: i128) -> (q: i128)
    requires
        b > 0,
        a > i128::MIN,
    ensures
        q == ceil_quotient(a as int, b as int),
        a >= 0 ==> 0 <= q <= a,
        a < 0 ==> a <= q <= 0,
{
    -floor_div(-a, b)
}

/// The quotient of a number that is not negative lies between 0 and the
/// number, and reaches it only where nothing remains.
proof fn lemma_quotient_within(n: int, b: int)
    requires
        n >= 0,
        b > 0,
    ensures
        0 <= n / b <= n,
        n % b != 0 ==> n / b < n,
        n % b == 0 && n > 0 ==> n / b >= 1,
{
    vstd::arithmetic::div_mod::lemma_fundamental_div_mod(n, b);
    vstd::arithmetic::div_mod::lemma_mod_bound(n, b);
    let q = n / b;
    let r = n % b;
    assert(0 <= q <= n && (r != 0 ==> q < n) && (r == 0 && n > 0 ==> q >= 1)) by (nonlinear_arith)
        requires
            n == b * q + r,
            0 <= r < b,
            n >= 0,
    ;
}

/// Rounding down the quotient of a negated number.
proof fn lemma_floor_of_negative(n: int, b: int)
    requires
        n >= 0,
        b > 0,
    ensures
        n % b == 0 ==> (-n) / b == -(n / b),
        n % b != 0 ==> (-n) / b == -(n / b) - 1,
{
    let q = n / b;
    let r = n % b;
    vstd::arithmetic::div_mod::lemma_fundamental_div_mod(n, b);
    vstd::arithmetic::div_mod::lemma_mod_bound(n, b);
    if r == 0 {
        assert(-n == b * (-q) + 0) by (nonlinear_arith)
            requires
                n == b * q + r,
                r == 0,
        ;
        vstd::arithmetic::div_mod::lemma_fundamental_div_mod_converse(-n, b, -q, 0);
    } else {
        assert(-n == b * (-q - 1) + (b - r)) by (nonlinear_arith)
            requires
                n == b * q + r,
        ;
        vstd::arithmetic::div_mod::lemma_fundamental_div_mod_converse(-n, b, -q - 1, b - r);
    }
}

/// The quotient rounded down, times the divisor, is the greatest multiple
/// of the divisor that is not above the number.
pub proof fn lemma_floor_bounds(a: int, b: int)
    requires
        b > 0,
    ensures
        floor_quotient(a, b) * b <= a < floor_quotient(a, b) * b + b,
{
    vstd::arithmetic::div_mod::lemma_fundamental_div_mod(a, b);
    vstd::arithmetic::div_mod::lemma_mod_bound(a, b);
    assert((a / b) * b == b * (a / b)) by (nonlinear_arith);
}

/// The quotient rounded up, times the divisor, is the least multiple of
/// the divisor that is not below the number.
pub proof fn lemma_ceil_bounds(a: int, b: int)
    requires
        b > 0,
    ensures
        ceil_quotient(a, b) * b - b < a <= ceil_quotient(a, b) * b,
{
    lemma_floor_bounds(-a, b);
    assert((-((-a) / b)) * b == -(((-a) / b) * b)) by (nonlinear_arith);
}

/// A multiple of the divisor is its own rounded quotient times the
/// divisor, whichever way the quotient is rounded.
pub proof fn lemma_quotient_of_multiple(k: int, b: int)
    requires
        b > 0,
    ensures
        floor_quotient(k * b, b) == k,
        ceil_quotient(k * b, b) == k,
{
    vstd::arithmetic::div_mod::lemma_div_multiples_vanish(k, b);
    vstd::arithmetic::div_mod::lemma_div_multiples_vanish(-k, b);
    assert(k * b == b * k) by (nonlinear_arith);
    assert(-(k * b) == b * (-k)) by (nonlinear_arith);
}

/// Whether `root` is the square root of `n`, rounded down.
pub open spec fn is_floor_sqrt(n: int, root: int) -> bool {
    0 <= root && root * root <= n < (root + 1) * (root + 1)
}

/// The square root of `n`, rounded down, for `n` below `2^126`.
pub fn floor_sqrt(n: u128) -> (root: u128)
    requires
        n < 0x4000_0000_0000_0000_0000_0000_0000_0000,
    ensures
        is_floor_sqrt(n as int, root as int),
        root < 0x8000_0000_0000_0000,
{
    let mut low: u128 = 0;
    let mut high: u128 = 0x8000_0000_0000_0000;
    assert(high * high == 0x4000_0000_0000_0000_0000_0000_0000_0000) by (nonlinear_arith)
        requires
            high == 0x8000_0000_0000_0000,
    ;
    while high - low > 1
        invariant
            low < high <= 0x8000_0000_0000_0000,
            low * low <= n < high * high,
        decreases high - low,
    {
        let middle: u128 = low + (high - low) / 2;
        assert(middle * middle < 0x8000_0000_0000_0000 * 0x8000_0000_0000_0000)
            by (nonlinear_arith)
            requires
                0 <= middle < 0x8000_0000_0000_0000,
        ;
        if middle * middle <= n {
            low = middle;
        } else {
            high = middle;
        }
    }
    low
}

} // verus!
