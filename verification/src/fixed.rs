//! Fixed-point arithmetic helpers: truncating division, clamping, and an
//! integer square root, with the spec-level functions the rest of the
//! pipeline states its contracts over.
use vstd::prelude::*;
use vstd::arithmetic::div_mod::{
    lemma_div_pos_is_pos, lemma_div_is_ordered, lemma_div_nonincreasing, lemma_div_by_multiple,
};

verus! {

/// Truncating (round-toward-zero) integer division, the semantics of the
/// machine `/` on signed integers. Unspecified for `d == 0`.
pub open spec fn tdiv(x: int, d: int) -> int {
    if x == 0 {
        0
    } else if x > 0 && d > 0 {
        x / d
    } else if x < 0 && d < 0 {
        (x * -1) / (d * -1)
    } else if x < 0 {
        ((x * -1) / d) * -1
    } else {
        (x / (d * -1)) * -1
    }
}

/// Magnitude of an integer.
pub open spec fn mag(x: int) -> int {
    if x >= 0 {
        x
    } else {
        -x
    }
}

/// Clamp a value into the inclusive range `[lo, hi]`.
pub open spec fn clamp_s(v: int, lo: int, hi: int) -> int {
    if v < lo {
        lo
    } else if v > hi {
        hi
    } else {
        v
    }
}

/// A truncated quotient is no larger in magnitude than the dividend and
/// keeps its sign for a positive divisor.
pub proof fn lemma_tdiv_mag(x: int, d: int)
    requires
        d != 0,
    ensures
        mag(tdiv(x, d)) <= mag(x),
        x >= 0 && d > 0 ==> 0 <= tdiv(x, d),
        x <= 0 && d > 0 ==> tdiv(x, d) <= 0,
{
    if x == 0 {
    } else if x > 0 && d > 0 {
        lemma_div_pos_is_pos(x, d);
        lemma_div_nonincreasing(x, d);
    } else if x < 0 && d < 0 {
        lemma_div_pos_is_pos(x * -1, d * -1);
        lemma_div_nonincreasing(x * -1, d * -1);
    } else if x < 0 {
        lemma_div_pos_is_pos(x * -1, d);
        lemma_div_nonincreasing(x * -1, d);
    } else {
        lemma_div_pos_is_pos(x, d * -1);
        lemma_div_nonincreasing(x, d * -1);
    }
}

/// Dividing by negative one negates.
pub proof fn lemma_tdiv_neg_one(x: int)
    ensures
        tdiv(x, -1) == x * -1,
{
    if x > 0 {
        vstd::arithmetic::div_mod::lemma_div_basics(x);
        assert(tdiv(x, -1) == (x / 1) * -1);
    } else if x < 0 {
        vstd::arithmetic::div_mod::lemma_div_basics(x * -1);
        assert(tdiv(x, -1) == (x * -1) / 1);
    }
}

/// A divisor of magnitude at least two strictly shrinks a nonzero dividend.
pub proof fn lemma_tdiv_shrinks(x: int, d: int)
    requires
        x != 0,
        d > 1 || d < -1,
    ensures
        mag(tdiv(x, d)) < mag(x),
{
    if x > 0 && d > 0 {
        lemma_div_pos_is_pos(x, d);
        vstd::arithmetic::div_mod::lemma_div_decreases(x, d);
    } else if x < 0 && d < 0 {
        lemma_div_pos_is_pos(x * -1, d * -1);
        vstd::arithmetic::div_mod::lemma_div_decreases(x * -1, d * -1);
    } else if x < 0 {
        lemma_div_pos_is_pos(x * -1, d);
        vstd::arithmetic::div_mod::lemma_div_decreases(x * -1, d);
    } else {
        lemma_div_pos_is_pos(x, d * -1);
        vstd::arithmetic::div_mod::lemma_div_decreases(x, d * -1);
    }
}

/// Division is exact on multiples of the divisor.
pub proof fn lemma_tdiv_exact(a: int, d: int)
    requires
        d > 0,
    ensures
        tdiv(a * d, d) == a,
{
    if a == 0 {
        assert(a * d == 0);
    } else if a > 0 {
        assert(a * d > 0) by (nonlinear_arith)
            requires
                a > 0,
                d > 0,
        ;
        lemma_div_by_multiple(a, d);
    } else {
        assert(a * d < 0) by (nonlinear_arith)
            requires
                a < 0,
                d > 0,
        ;
        assert((a * d) * -1 == (a * -1) * d) by (nonlinear_arith);
        lemma_div_by_multiple(a * -1, d);
    }
}

/// For a positive divisor, a truncated quotient of a value between two
/// multiples of the divisor stays between the factors, widened to include 0.
pub proof fn lemma_tdiv_between(n: int, d: int, lo: int, hi: int)
    requires
        d > 0,
        lo * d <= n <= hi * d,
    ensures
        clamp_s(tdiv(n, d), if lo < 0 { lo } else { 0 }, if hi > 0 { hi } else { 0 })
            == tdiv(n, d),
        lo <= 0 <= hi ==> lo <= tdiv(n, d) <= hi,
{
    if n == 0 {
    } else if n > 0 {
        assert(hi * d > 0);
        assert(hi > 0) by (nonlinear_arith)
            requires
                hi * d > 0,
                d > 0,
        ;
        lemma_div_pos_is_pos(n, d);
        lemma_div_is_ordered(n, hi * d, d);
        lemma_div_by_multiple(hi, d);
    } else {
        assert(lo * d < 0);
        assert(lo < 0) by (nonlinear_arith)
            requires
                lo * d < 0,
                d > 0,
        ;
        lemma_div_pos_is_pos(n * -1, d);
        assert((lo * d) * -1 == (lo * -1) * d) by (nonlinear_arith);
        lemma_div_is_ordered(n * -1, (lo * -1) * d, d);
        lemma_div_by_multiple(lo * -1, d);
    }
}

/// Truncating division of `i64` values through the machine division.
pub fn tdiv64(n: i64, d: i64) -> (r: i64)
    requires
        d != 0,
        !(n == i64::MIN && d == -1),
    ensures
        r == tdiv(n as int, d as int),
{
    proof {
        lemma_tdiv_mag(n as int, d as int);
        if d == -1 {
            lemma_tdiv_neg_one(n as int);
        } else if n != 0 && (d > 1 || d < -1) {
            lemma_tdiv_shrinks(n as int, d as int);
        }
        assert(i64::MIN <= tdiv(n as int, d as int) <= i64::MAX);
    }
    n.checked_div(d).unwrap()
}

/// Truncating division of `i128` values through the machine division.
pub fn tdiv128(n: i128, d: i128) -> (r: i128)
    requires
        d != 0,
        !(n == i128::MIN && d == -1),
    ensures
        r == tdiv(n as int, d as int),
{
    proof {
        lemma_tdiv_mag(n as int, d as int);
        if d == -1 {
            lemma_tdiv_neg_one(n as int);
        } else if n != 0 && (d > 1 || d < -1) {
            lemma_tdiv_shrinks(n as int, d as int);
        }
        assert(i128::MIN <= tdiv(n as int, d as int) <= i128::MAX);
    }
    n.checked_div(d).unwrap()
}

/// Clamp a coordinate into `[lo, hi]`.
pub fn clamp64(v: i64, lo: i64, hi: i64) -> (r: i64)
    requires
        lo <= hi,
    ensures
        r == clamp_s(v as int, lo as int, hi as int),
{
    if v < lo {
        lo
    } else if v > hi {
        hi
    } else {
        v
    }
}

/// The floor of the square root of a natural number.
pub open spec fn sqrt_floor(n: nat) -> nat
    decreases n,
{
    if n == 0 {
        0
    } else {
        let r = sqrt_floor((n - 1) as nat);
        if (r + 1) * (r + 1) <= n {
            r + 1
        } else {
            r
        }
    }
}

/// `sqrt_floor` squares to no more than its argument, and is the largest
/// such number.
pub proof fn lemma_sqrt_floor(n: nat)
    ensures
        sqrt_floor(n) * sqrt_floor(n) <= n,
        n < (sqrt_floor(n) + 1) * (sqrt_floor(n) + 1),
    decreases n,
{
    if n == 0 {
        assert(sqrt_floor(0nat) == 0);
        assert((sqrt_floor(n) + 1) * (sqrt_floor(n) + 1) == 1) by (nonlinear_arith)
            requires
                sqrt_floor(n) == 0,
        ;
    } else {
        lemma_sqrt_floor((n - 1) as nat);
        let r = sqrt_floor((n - 1) as nat);
        if (r + 1) * (r + 1) <= n {
            assert(sqrt_floor(n) == r + 1);
            assert(n < ((r + 1) + 1) * ((r + 1) + 1)) by (nonlinear_arith)
                requires
                    n - 1 < (r + 1) * (r + 1),
            ;
            assert(sqrt_floor(n) * sqrt_floor(n) <= n);
            assert(n < (sqrt_floor(n) + 1) * (sqrt_floor(n) + 1));
        } else {
            assert(sqrt_floor(n) == r);
            assert(sqrt_floor(n) * sqrt_floor(n) <= n);
            assert(n < (sqrt_floor(n) + 1) * (sqrt_floor(n) + 1));
        }
    }
}

/// Any number whose square brackets `n` is `sqrt_floor(n)`.
pub proof fn lemma_sqrt_unique(n: nat, r: nat)
    requires
        r * r <= n,
        n < (r + 1) * (r + 1),
    ensures
        r == sqrt_floor(n),
{
    lemma_sqrt_floor(n);
    let s = sqrt_floor(n);
    if r < s {
        assert(s * s >= (r + 1) * (r + 1)) by (nonlinear_arith)
            requires
                r + 1 <= s,
        ;
    }
    if s < r {
        assert(r * r >= (s + 1) * (s + 1)) by (nonlinear_arith)
            requires
                s + 1 <= r,
        ;
    }
}

/// Floor of the square root, by bisection.
pub fn isqrt(n: u128) -> (r: u128)
    requires
        n < 0x40000000000000000000000000000000,
    ensures
        r == sqrt_floor(n as nat),
        r * r <= n < (r + 1) * (r + 1),
{
    if n == 0 {
        return 0;
    }
    let mut lo: u128 = 0;
    let mut hi: u128 = 0x8000000000000000;
    proof {
        assert(hi * hi == 0x40000000000000000000000000000000) by (nonlinear_arith)
            requires
                hi == 0x8000000000000000,
        ;
    }
    while lo + 1 < hi
        invariant
            lo < hi <= 0x8000000000000000,
            lo * lo <= n,
            n < hi * hi,
        decreases hi - lo,
    {
        let mid: u128 = lo + (hi - lo) / 2;
        assert(mid * mid < 0x40000000000000000000000000000000) by (nonlinear_arith)
            requires
                mid < 0x8000000000000000,
        ;
        if mid * mid <= n {
            lo = mid;
        } else {
            hi = mid;
        }
    }
    proof {
        lemma_sqrt_unique(n as nat, lo as nat);
    }
    lo
}


/// Dividing by a positive divisor divides the magnitude bound.
pub proof fn lemma_tdiv_mag_div(n: int, d: int, b: int)
    requires
        d > 0,
        mag(n) <= b,
    ensures
        mag(tdiv(n, d)) <= b / d,
{
    if n == 0 {
        lemma_div_pos_is_pos(b, d);
    } else if n > 0 {
        lemma_div_pos_is_pos(n, d);
        lemma_div_is_ordered(n, b, d);
    } else {
        lemma_div_pos_is_pos(n * -1, d);
        lemma_div_is_ordered(n * -1, b, d);
    }
}

/// Truncating division by a positive divisor is monotone in the dividend.
pub proof fn lemma_tdiv_mono(n1: int, n2: int, d: int)
    requires
        n1 <= n2,
        d > 0,
    ensures
        tdiv(n1, d) <= tdiv(n2, d),
{
    if n1 >= 0 {
        lemma_div_is_ordered(n1, n2, d);
    } else if n2 <= 0 {
        lemma_div_is_ordered(n2 * -1, n1 * -1, d);
    } else {
        lemma_div_pos_is_pos(n1 * -1, d);
        lemma_div_pos_is_pos(n2, d);
    }
}

/// The least of three values.
pub open spec fn min3(a: int, b: int, c: int) -> int {
    if a <= b && a <= c {
        a
    } else if b <= c {
        b
    } else {
        c
    }
}

/// The greatest of three values.
pub open spec fn max3(a: int, b: int, c: int) -> int {
    if a >= b && a >= c {
        a
    } else if b >= c {
        b
    } else {
        c
    }
}

/// Computes the least of three values.
pub fn min3_64(a: i64, b: i64, c: i64) -> (r: i64)
    ensures
        r as int == min3(a as int, b as int, c as int),
{
    if a <= b && a <= c {
        a
    } else if b <= c {
        b
    } else {
        c
    }
}

/// Computes the greatest of three values.
pub fn max3_64(a: i64, b: i64, c: i64) -> (r: i64)
    ensures
        r as int == max3(a as int, b as int, c as int),
{
    if a >= b && a >= c {
        a
    } else if b >= c {
        b
    } else {
        c
    }
}

/// Bounds on two factors bound their product.
pub proof fn lemma_mul_rng(a: int, b: int, ba: int, bb: int) by (nonlinear_arith)
    requires
        -ba <= a <= ba,
        -bb <= b <= bb,
    ensures
        -(ba * bb) <= a * b <= ba * bb,
{
}

} // verus!
