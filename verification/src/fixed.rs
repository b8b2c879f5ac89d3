//! Signed 64-bit fixed-point scalars with 16 fractional bits.
//!
//! A scalar `x` stands for the real number `x / SCALE`.  Products and
//! quotients are computed exactly in 128-bit intermediates, rounded toward
//! zero (`tdiv`), and saturated into `[-LIM, LIM]` (`sat`), so every
//! operation is total and every contract states its result exactly.
//! Within the working range `fits` the saturation is the identity.

use vstd::prelude::*;
use vstd::arithmetic::div_mod::*;

verus! {

/// One unit: the fixed-point representation of the real number 1.
pub const SCALE: i64 = 65536;

/// Saturation limit of every fixed-point operation (2^44, about 2^28 units).
pub const LIM: i64 = 0x100000000000;

/// The working range (2^37, about 2^21 units): inside it no operation of
/// this crate saturates and all compound 128-bit intermediates stay exact.
pub open spec fn fits(x: int) -> bool {
    -0x2000000000 <= x && x <= 0x2000000000
}

/// Inside the saturation band: where every scalar produced by the
/// operations of this crate lies.
pub open spec fn inb(x: int) -> bool {
    -(LIM as int) <= x <= LIM as int
}

/// Division rounded toward zero, the rounding of Rust's `/` on signed
/// integers (spec `/` alone is Euclidean).
pub open spec fn tdiv(a: int, b: int) -> int {
    if a == 0 {
        0
    } else if a > 0 && b > 0 {
        a / b
    } else if a < 0 && b < 0 {
        (a * -1) / (b * -1)
    } else if a < 0 {
        ((a * -1) / b) * -1
    } else {
        (a / (b * -1)) * -1
    }
}

/// Saturation into the representable band `[-LIM, LIM]`.
pub open spec fn sat(x: int) -> int {
    if x > LIM {
        LIM as int
    } else if x < -(LIM as int) {
        -(LIM as int)
    } else {
        x
    }
}

/// Rounding toward zero never increases magnitude: a quotient is bounded
/// by any `bound` whose product with a positive divisor bounds the dividend.
pub proof fn lemma_tdiv_bound(a: int, b: int, bound: int)
    requires
        b > 0,
        bound >= 0,
        -(bound * b) <= a <= bound * b,
    ensures
        -bound <= tdiv(a, b) <= bound,
{
    lemma_div_basics(b);
    if a > 0 {
        lemma_div_is_ordered(a, bound * b, b);
        lemma_div_by_multiple(bound, b);
        lemma_div_is_ordered(0, a, b);
    } else if a < 0 {
        assert(a * -1 <= bound * b);
        lemma_div_is_ordered(a * -1, bound * b, b);
        lemma_div_by_multiple(bound, b);
        lemma_div_is_ordered(0, a * -1, b);
    }
}

/// Dividing an exact multiple loses nothing.
pub proof fn lemma_tdiv_exact(k: int, b: int)
    requires
        b > 0,
    ensures
        tdiv(k * b, b) == k,
{
    if k > 0 {
        lemma_div_by_multiple(k, b);
    } else if k < 0 {
        assert((k * b) * -1 == (k * -1) * b) by (nonlinear_arith);
        lemma_div_by_multiple(k * -1, b);
    }
}

/// The dividend brackets the rounded quotient: `q * b` falls within one
/// divisor of `a`, on the zero side.
pub proof fn lemma_tdiv_mul_bracket(a: int, b: int)
    requires
        b > 0,
    ensures
        a >= 0 ==> tdiv(a, b) * b <= a < (tdiv(a, b) + 1) * b,
        a <= 0 ==> (tdiv(a, b) - 1) * b < a <= tdiv(a, b) * b,
        a >= 0 ==> tdiv(a, b) >= 0,
        a <= 0 ==> tdiv(a, b) <= 0,
{
    lemma_div_basics(b);
    if a > 0 {
        lemma_fundamental_div_mod(a, b);
        lemma_mod_bound(a, b);
        lemma_div_is_ordered(0, a, b);
        let d = a / b;
        assert(tdiv(a, b) == d);
        assert(b * d == d * b) by (nonlinear_arith);
        assert((d + 1) * b == d * b + b) by (nonlinear_arith);
        assert(tdiv(a, b) * b == d * b);
        assert((tdiv(a, b) + 1) * b == (d + 1) * b);
    } else if a < 0 {
        let m = a * -1;
        lemma_fundamental_div_mod(m, b);
        lemma_mod_bound(m, b);
        lemma_div_is_ordered(0, m, b);
        let d = m / b;
        assert(tdiv(a, b) == d * -1);
        assert(b * d == d * b) by (nonlinear_arith);
        assert((d * -1) * b == -(d * b)) by (nonlinear_arith);
        assert(((d * -1) - 1) * b == -(d * b) - b) by (nonlinear_arith);
        assert(tdiv(a, b) * b == (d * -1) * b);
        assert((tdiv(a, b) - 1) * b == ((d * -1) - 1) * b);
        assert(m < d * b + b);
        assert(-(d * b) - b < a);
        assert(a <= -(d * b));
    } else {
        assert(tdiv(a, b) == 0);
        assert(0 * b == 0) by (nonlinear_arith);
        assert((0 + 1) * b == b) by (nonlinear_arith);
        assert((0 - 1) * b == -b) by (nonlinear_arith);
        assert(tdiv(a, b) * b == 0 * b);
        assert((tdiv(a, b) + 1) * b == (0 + 1) * b);
        assert((tdiv(a, b) - 1) * b == (0 - 1) * b);
    }
}

/// Saturate an exact 128-bit intermediate into a 64-bit scalar.
pub fn sat_narrow(p: i128) -> (r: i64)
    ensures
        r as int == sat(p as int),
{
    if p > LIM as i128 {
        LIM
    } else if p < -(LIM as i128) {
        -LIM
    } else {
        p as i64
    }
}

/// Fixed-point product: the exact integer product rescaled by one unit,
/// rounded toward zero, then saturated.
pub fn fx_mul(a: i64, b: i64) -> (r: i64)
    ensures
        r as int == sat(tdiv(a as int * b as int, SCALE as int)),
{
    proof {
        assert(-0x40000000000000000000000000000000
            <= (a as int) * (b as int)
            <= 0x40000000000000000000000000000000) by (nonlinear_arith)
            requires
                -0x8000000000000000 <= a as int <= 0x7fffffffffffffff,
                -0x8000000000000000 <= b as int <= 0x7fffffffffffffff;
    }
    let p: i128 = (a as i128) * (b as i128);
    let q: i128 = p / (SCALE as i128);
    sat_narrow(q)
}

/// Negating the divisor negates the quotient rounded toward zero.
pub proof fn lemma_tdiv_neg_divisor(a: int, b: int)
    requires
        b > 0,
    ensures
        tdiv(a, -b) == -tdiv(a, b),
{
}

/// Fixed-point quotient: the dividend rescaled by one unit, divided with
/// rounding toward zero, then saturated.
pub fn fx_div(a: i64, b: i64) -> (r: i64)
    requires
        b != 0,
    ensures
        r as int == sat(tdiv(a as int * SCALE as int, b as int)),
{
    proof {
        assert(-0x80000000000000000000 <= (a as int) * (SCALE as int) <= 0x80000000000000000000)
            by (nonlinear_arith)
            requires
                -0x8000000000000000 <= a as int <= 0x7fffffffffffffff;
    }
    let p: i128 = (a as i128) * (SCALE as i128);
    if b > 0 {
        let q: i128 = p / (b as i128);
        sat_narrow(q)
    } else {
        let q: i128 = p / (-(b as i128));
        proof {
            lemma_tdiv_neg_divisor(p as int, -(b as int));
        }
        sat_narrow(-q)
    }
}

/// A product rescaled by an arbitrary nonzero divisor, rounded toward
/// zero and saturated.
pub fn fx_mul_div(a: i64, b: i64, c: i64) -> (r: i64)
    requires
        c != 0,
    ensures
        r as int == sat(tdiv(a as int * b as int, c as int)),
{
    proof {
        assert(-0x40000000000000000000000000000000
            <= (a as int) * (b as int)
            <= 0x40000000000000000000000000000000) by (nonlinear_arith)
            requires
                -0x8000000000000000 <= a as int <= 0x7fffffffffffffff,
                -0x8000000000000000 <= b as int <= 0x7fffffffffffffff;
    }
    let p: i128 = (a as i128) * (b as i128);
    if c > 0 {
        let q: i128 = p / (c as i128);
        sat_narrow(q)
    } else {
        let q: i128 = p / (-(c as i128));
        proof {
            lemma_tdiv_neg_divisor(p as int, -(c as int));
        }
        sat_narrow(-q)
    }
}

/// Truncating 128-bit division, for exact intermediates away from the
/// 128-bit boundaries.
pub fn tdiv128(p: i128, d: i128) -> (r: i128)
    requires
        d != 0,
        -0x40000000000000000000000000000000 <= p <= 0x40000000000000000000000000000000,
        -0x40000000000000000000000000000000 <= d <= 0x40000000000000000000000000000000,
    ensures
        r as int == tdiv(p as int, d as int),
{
    if d > 0 {
        p / d
    } else {
        let q: i128 = p / (-d);
        proof {
            lemma_tdiv_neg_divisor(p as int, -(d as int));
            assert(0x40000000000000000000000000000000 * (-(d as int))
                >= 0x40000000000000000000000000000000) by (nonlinear_arith)
                requires -(d as int) >= 1;
            lemma_tdiv_bound(p as int, -(d as int), 0x40000000000000000000000000000000);
        }
        -q
    }
}

/// A four-term fixed-point inner product: the exact sum of products,
/// rescaled by one unit, rounded toward zero and saturated.
pub fn dot4(a0: i64, a1: i64, a2: i64, a3: i64, b0: i64, b1: i64, b2: i64, b3: i64) -> (r: i64)
    requires
        inb(a0 as int) && inb(a1 as int) && inb(a2 as int) && inb(a3 as int),
        inb(b0 as int) && inb(b1 as int) && inb(b2 as int) && inb(b3 as int),
    ensures
        r as int == sat(tdiv(
            a0 as int * b0 as int + a1 as int * b1 as int + a2 as int * b2 as int
                + a3 as int * b3 as int,
            SCALE as int,
        )),
{
    proof {
        lemma_inb_product(a0 as int, b0 as int);
        lemma_inb_product(a1 as int, b1 as int);
        lemma_inb_product(a2 as int, b2 as int);
        lemma_inb_product(a3 as int, b3 as int);
    }
    let p: i128 = (a0 as i128) * (b0 as i128) + (a1 as i128) * (b1 as i128)
        + (a2 as i128) * (b2 as i128) + (a3 as i128) * (b3 as i128);
    let q: i128 = p / (SCALE as i128);
    sat_narrow(q)
}

/// Products of scalars in the saturation band stay far inside the exact
/// 128-bit range.
pub proof fn lemma_inb_product(p: int, q: int)
    requires
        inb(p),
        inb(q),
    ensures
        -0x100000000000000000000000 <= p * q <= 0x100000000000000000000000,
{
    assert(-0x100000000000000000000000 <= p * q <= 0x100000000000000000000000)
        by (nonlinear_arith)
        requires
            -0x100000000000 <= p <= 0x100000000000,
            -0x100000000000 <= q <= 0x100000000000;
}

/// The integer square root, floor of the real one.
pub open spec fn sqrt_floor(q: nat) -> nat
    decreases q,
{
    if q == 0 {
        0
    } else {
        let p = sqrt_floor((q - 1) as nat);
        if (p + 1) * (p + 1) <= q {
            p + 1
        } else {
            p
        }
    }
}

/// `sqrt_floor` is what its name says: its square is the largest at most `q`.
pub proof fn lemma_sqrt_floor_correct(q: nat)
    ensures
        sqrt_floor(q) * sqrt_floor(q) <= q,
        q < (sqrt_floor(q) + 1) * (sqrt_floor(q) + 1),
    decreases q,
{
    if q > 0 {
        lemma_sqrt_floor_correct((q - 1) as nat);
        let p = sqrt_floor((q - 1) as nat);
        assert(p * p <= q - 1);
        if (p + 1) * (p + 1) <= q {
            assert(sqrt_floor(q) == p + 1);
            assert(sqrt_floor(q) * sqrt_floor(q) == (p + 1) * (p + 1));
            assert((sqrt_floor(q) + 1) * (sqrt_floor(q) + 1) == (p + 2) * (p + 2));
            assert((p + 1) * (p + 1) < (p + 2) * (p + 2)) by (nonlinear_arith);
            assert(q <= (p + 1) * (p + 1));
        } else {
            assert(sqrt_floor(q) == p);
            assert(sqrt_floor(q) * sqrt_floor(q) == p * p);
            assert((sqrt_floor(q) + 1) * (sqrt_floor(q) + 1) == (p + 1) * (p + 1));
        }
    } else {
        assert(sqrt_floor(q) == 0);
        assert(sqrt_floor(q) * sqrt_floor(q) == 0);
        assert((sqrt_floor(q) + 1) * (sqrt_floor(q) + 1) == 1) by (nonlinear_arith)
            requires sqrt_floor(q) == 0;
    }
}

/// Only one natural number squares to at most `q` while its successor
/// squares beyond it.
pub proof fn lemma_sqrt_floor_unique(q: nat, r: nat)
    requires
        r * r <= q,
        q < (r + 1) * (r + 1),
    ensures
        r == sqrt_floor(q),
{
    lemma_sqrt_floor_correct(q);
    let s = sqrt_floor(q);
    if r < s {
        assert((r + 1) * (r + 1) <= s * s) by (nonlinear_arith)
            requires r + 1 <= s;
    } else if s < r {
        assert((s + 1) * (s + 1) <= r * r) by (nonlinear_arith)
            requires s + 1 <= r;
    }
}

/// Binary search for the integer square root of a 128-bit value.
pub fn isqrt(q: u128) -> (r: u64)
    requires
        q < 0x40000000000000000000000000000000,
    ensures
        r as nat == sqrt_floor(q as nat),
        r * r <= q,
{
    let mut lo: u128 = 0;
    let mut hi: u128 = 0x8000000000000000;
    proof {
        assert(0x8000000000000000u128 * 0x8000000000000000u128
            == 0x40000000000000000000000000000000) by (nonlinear_arith);
    }
    while lo + 1 < hi
        invariant
            lo < hi <= 0x8000000000000000,
            lo * lo <= q,
            q < hi * hi,
        decreases hi - lo,
    {
        let mid = lo + (hi - lo) / 2;
        proof {
            assert(mid * mid < 0x100000000000000000000000000000000) by (nonlinear_arith)
                requires mid <= 0x8000000000000000u128;
        }
        if mid * mid <= q {
            lo = mid;
        } else {
            hi = mid;
        }
    }
    proof {
        assert((lo + 1) * (lo + 1) == hi * hi || (lo + 1) * (lo + 1) < hi * hi)
            by (nonlinear_arith)
            requires lo + 1 <= hi;
        lemma_sqrt_floor_unique(q as nat, lo as nat);
    }
    lo as u64
}

} // verus!
