//! Fixed-point arithmetic: a raw integer `x` stands for the real number `x / ONE`.
use vstd::prelude::*;
use vstd::arithmetic::div_mod::{
    lemma_div_is_ordered, lemma_div_multiples_vanish, lemma_fundamental_div_mod_converse,
};

verus! {

/// The raw value of 1.0.
pub const ONE: i64 = 65536;

/// The largest magnitude of a coordinate of a point or a direction that rays may carry.
pub const LIMIT: i64 = 268435456;

/// Bound on the magnitude of a numerator handed to `floor_div`.
pub const DIV_RANGE: i128 = 0x0200_0000_0000_0000_0000_0000_0000_0000;

/// Exclusive upper bound of the arguments of `isqrt`.
pub const SQRT_DOMAIN: i128 = 0x1000_0000_0000_0000_0000_0000_0000_0000;

/// Product of two fixed-point numbers, rounded down.
pub open spec fn fmul_spec(a: int, b: int) -> int {
    (a * b) / (ONE as int)
}

/// Quotient of two fixed-point numbers, rounded down.
pub open spec fn fdiv_spec(a: int, b: int) -> int {
    (a * ONE) / b
}

/// `r` is the floor of the square root of `n`.
pub open spec fn is_isqrt(n: int, r: int) -> bool {
    0 <= r && r * r <= n && n < (r + 1) * (r + 1)
}

/// Values of the products of the fixed-point constants that bounds are stated with.
pub proof fn lemma_const_products()
    ensures
        (ONE as int) * (ONE as int) == 0x1_0000_0000,
        (2 * ONE as int) * (2 * ONE as int) == 0x4_0000_0000,
        (3 * ONE as int) * (ONE as int) == 0x3_0000_0000,
        (LIMIT as int) * (LIMIT as int) == 0x100_0000_0000_0000,
        (2 * LIMIT as int) * (2 * LIMIT as int) == 0x400_0000_0000_0000,
{
    assert((ONE as int) * (ONE as int) == 0x1_0000_0000) by (nonlinear_arith)
        requires
            ONE == 65536,
    ;
    assert((2 * ONE as int) * (2 * ONE as int) == 0x4_0000_0000) by (nonlinear_arith)
        requires
            ONE == 65536,
    ;
    assert((3 * ONE as int) * (ONE as int) == 0x3_0000_0000) by (nonlinear_arith)
        requires
            ONE == 65536,
    ;
    assert((LIMIT as int) * (LIMIT as int) == 0x100_0000_0000_0000) by (nonlinear_arith)
        requires
            LIMIT == 268435456,
    ;
    assert((2 * LIMIT as int) * (2 * LIMIT as int) == 0x400_0000_0000_0000) by (nonlinear_arith)
        requires
            LIMIT == 268435456,
    ;
}

/// Magnitude bound on a quotient: `|n| <= b * d` gives `|n / d| <= b`.
pub proof fn lemma_div_within(n: int, d: int, b: int)
    requires
        d > 0,
        b >= 0,
        -(b * d) <= n <= b * d,
    ensures
        -b <= n / d <= b,
{
    lemma_div_is_ordered(n, b * d, d);
    lemma_div_is_ordered(-(b * d), n, d);
    lemma_div_multiples_vanish(b, d);
    lemma_div_multiples_vanish(-b, d);
    assert(d * b == b * d) by (nonlinear_arith);
    assert(d * (-b) == -(b * d)) by (nonlinear_arith);
}

/// Division rounded toward negative infinity, for a positive divisor.
pub fn floor_div(n: i128, d: i128) -> (q: i128)
    requires
        d > 0,
        d <= DIV_RANGE,
        -DIV_RANGE <= n <= DIV_RANGE,
    ensures
        q == n / d,
{
    if n >= 0 {
        n / d
    } else {
        let m: i128 = -n;
        let t: i128 = (m + d - 1) / d;
        proof {
            let ti = t as int;
            let mi = m as int;
            let di = d as int;
            let rem = (mi + di - 1) % di;
            assert(mi + di - 1 == ti * di + rem) by {
                vstd::arithmetic::div_mod::lemma_fundamental_div_mod(mi + di - 1, di);
                assert(di * ti == ti * di) by (nonlinear_arith);
            }
            assert(0 <= rem < di) by {
                vstd::arithmetic::div_mod::lemma_mod_bound(mi + di - 1, di);
            }
            let r2 = di - 1 - rem;
            assert(n as int == (-ti) * di + r2) by (nonlinear_arith)
                requires
                    mi + di - 1 == ti * di + rem,
                    n as int == -mi,
                    r2 == di - 1 - rem,
            ;
            lemma_fundamental_div_mod_converse(n as int, di, -ti, r2);
        }
        -t
    }
}

/// Floor of the square root of a non-negative integer.
pub fn isqrt(n: i128) -> (r: i128)
    requires
        0 <= n < SQRT_DOMAIN,
    ensures
        is_isqrt(n as int, r as int),
{
    let mut lo: i128 = 0;
    let mut hi: i128 = 0x4000_0000_0000_0000;
    assert(n < hi * hi);
    while hi - lo > 1
        invariant
            0 <= lo < hi <= 0x4000_0000_0000_0000,
            lo * lo <= n,
            n < hi * hi,
        decreases hi - lo,
    {
        let mid: i128 = lo + (hi - lo) / 2;
        assert(lo < mid < hi);
        assert(mid * mid < 0x1000_0000_0000_0000_0000_0000_0000_0000) by (nonlinear_arith)
            requires
                0 <= mid < 0x4000_0000_0000_0000int,
        ;
        if mid * mid <= n {
            lo = mid;
        } else {
            hi = mid;
        }
    }
    assert(hi == lo + 1);
    lo
}

/// Fixed-point product, rounded down.
pub fn fmul(a: i64, b: i64) -> (r: i64)
    requires
        -(LIMIT as int) * (LIMIT as int) <= a * b <= (LIMIT as int) * (LIMIT as int),
    ensures
        r == fmul_spec(a as int, b as int),
{
    let p: i128 = (a as i128) * (b as i128);
    proof {
        lemma_div_within(p as int, ONE as int, (LIMIT as int) * (LIMIT as int) / (ONE as int));
    }
    floor_div(p, ONE as i128) as i64
}

} // verus!
