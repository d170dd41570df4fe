//! Fixed-point scalars.
//!
//! A scalar is an `i64` holding a real number scaled by [`ONE`] (16
//! fractional bits).  Every arithmetic operation saturates its result into
//! `[-BOUND, BOUND]`, so the operations are total and every tensor the
//! engine produces stays bounded.  Products are divided by [`ONE`]
//! truncating toward zero.

use vstd::prelude::*;

verus! {

/// The scalar representing the real number one: values carry 16 fractional bits.
pub const ONE: i64 = 65536;

/// Magnitude bound kept by saturation; every scalar the engine produces
/// lies in `[-BOUND, BOUND]`.
pub const BOUND: i64 = 0x8000_0000_0000;

/// A scalar within the saturation range.
pub open spec fn bounded(x: i64) -> bool {
    -BOUND <= x && x <= BOUND
}

/// Every element of the sequence is within the saturation range.
pub open spec fn bounded_seq(s: Seq<i64>) -> bool {
    forall|i: int| 0 <= i < s.len() ==> bounded(#[trigger] s[i])
}

/// Saturation of a mathematical integer into the scalar range.
pub open spec fn sat(x: int) -> i64 {
    if x > BOUND {
        BOUND
    } else if x < -BOUND {
        (-BOUND) as i64
    } else {
        x as i64
    }
}

/// Division of a product by [`ONE`], truncating toward zero.
pub open spec fn quot_one(p: int) -> int {
    if p >= 0 {
        p / (ONE as int)
    } else {
        -((-p) / (ONE as int))
    }
}

/// Saturating fixed-point addition.
pub open spec fn spec_fadd(a: i64, b: i64) -> i64 {
    sat(a + b)
}

/// Saturating fixed-point subtraction.
pub open spec fn spec_fsub(a: i64, b: i64) -> i64 {
    sat(a - b)
}

/// Saturating fixed-point multiplication: the integer product is rescaled
/// by [`ONE`], truncating toward zero.
pub open spec fn spec_fmul(a: i64, b: i64) -> i64 {
    sat(quot_one((a as int) * (b as int)))
}

/// Truncating (toward zero) integer division, for a positive divisor.
pub open spec fn spec_divt(n: int, d: int) -> int {
    if n >= 0 {
        n / d
    } else {
        -((-n) / d)
    }
}

fn clamp_i128(x: i128) -> (r: i64)
    ensures
        r == sat(x as int),
{
    if x > BOUND as i128 {
        BOUND
    } else if x < -(BOUND as i128) {
        -BOUND
    } else {
        x as i64
    }
}

/// Fixed-point addition.
pub fn fadd(a: i64, b: i64) -> (r: i64)
    ensures
        r == spec_fadd(a, b),
        bounded(r),
{
    clamp_i128(a as i128 + b as i128)
}

/// Fixed-point subtraction.
pub fn fsub(a: i64, b: i64) -> (r: i64)
    ensures
        r == spec_fsub(a, b),
        bounded(r),
{
    clamp_i128(a as i128 - b as i128)
}

/// Fixed-point multiplication.
pub fn fmul(a: i64, b: i64) -> (r: i64)
    ensures
        r == spec_fmul(a, b),
        bounded(r),
{
    let neg: bool = (a < 0) != (b < 0);
    let ma: u128 = if a < 0 {
        (-(a as i128)) as u128
    } else {
        a as u128
    };
    let mb: u128 = if b < 0 {
        (-(b as i128)) as u128
    } else {
        b as u128
    };
    proof {
        assert(ma * mb <= 0x8000_0000_0000_0000 * 0x8000_0000_0000_0000) by (nonlinear_arith)
            requires
                ma <= 0x8000_0000_0000_0000,
                mb <= 0x8000_0000_0000_0000,
        ;
        if neg {
            assert((a as int) * (b as int) <= 0 && ma * mb == -((a as int) * (b as int)))
                by (nonlinear_arith)
                requires
                    (a < 0 && b >= 0 && ma == -(a as int) && mb == b) || (a >= 0 && b < 0 && ma
                        == a && mb == -(b as int)),
            ;
        } else {
            assert((a as int) * (b as int) >= 0 && ma * mb == (a as int) * (b as int))
                by (nonlinear_arith)
                requires
                    (a < 0 && b < 0 && ma == -(a as int) && mb == -(b as int)) || (a >= 0 && b
                        >= 0 && ma == a && mb == b),
            ;
        }
    }
    let mq: u128 = (ma * mb) / 65536;
    if neg {
        if mq > BOUND as u128 {
            -BOUND
        } else {
            -(mq as i64)
        }
    } else {
        if mq > BOUND as u128 {
            BOUND
        } else {
            mq as i64
        }
    }
}

/// `(a * ONE) / b`, for a nonnegative numerator and positive divisor;
/// the scaled quotient is saturated into the scalar range.
pub fn div_scaled(a: i64, b: i64) -> (r: i64)
    requires
        0 <= a,
        1 <= b,
    ensures
        r == sat(((a as int) * (ONE as int)) / (b as int)),
        0 <= r <= BOUND,
{
    let q: u128 = (a as u128 * 65536) / (b as u128);
    if q > BOUND as u128 {
        BOUND
    } else {
        q as i64
    }
}

/// Truncating division of a bounded scalar by a positive divisor.
pub fn divt(n: i64, d: i64) -> (r: i64)
    requires
        bounded(n),
        1 <= d,
    ensures
        r == spec_divt(n as int, d as int),
        0 <= n ==> 0 <= r <= n,
        n < 0 ==> n <= r <= 0,
{
    if n >= 0 {
        let q: u64 = n as u64 / d as u64;
        proof {
            assert((n as int) / (d as int) <= n as int) by (nonlinear_arith)
                requires
                    0 <= n as int,
                    1 <= d as int,
            ;
        }
        q as i64
    } else {
        let m: u64 = (-n) as u64;
        let q: u64 = m / d as u64;
        proof {
            assert((m as int) / (d as int) <= m as int) by (nonlinear_arith)
                requires
                    0 <= m as int,
                    1 <= d as int,
            ;
        }
        -(q as i64)
    }
}

/// The integer square root: the greatest `r` with `r * r <= n`.
pub open spec fn isqrt_spec(n: int) -> int {
    choose|r: int| #![trigger r * r] 0 <= r && r * r <= n && n < (r + 1) * (r + 1)
}

/// Two integer square roots of the same number are equal.
proof fn lemma_isqrt_unique(n: int, r1: int, r2: int)
    requires
        0 <= r1,
        r1 * r1 <= n,
        n < (r1 + 1) * (r1 + 1),
        0 <= r2,
        r2 * r2 <= n,
        n < (r2 + 1) * (r2 + 1),
    ensures
        r1 == r2,
{
    assert(r1 == r2) by (nonlinear_arith)
        requires
            0 <= r1,
            r1 * r1 <= n,
            n < (r1 + 1) * (r1 + 1),
            0 <= r2,
            r2 * r2 <= n,
            n < (r2 + 1) * (r2 + 1),
    ;
}

/// Integer square root by bisection.
pub fn isqrt_u64(n: u64) -> (r: u64)
    ensures
        r as int == isqrt_spec(n as int),
        (r as int) * (r as int) <= n as int,
        (n as int) < ((r as int) + 1) * ((r as int) + 1),
{
    let mut lo: u64 = 0;
    let mut hi: u64 = 0x1_0000_0000;
    proof {
        assert((0x1_0000_0000 as int) * (0x1_0000_0000 as int) > n as int) by (nonlinear_arith)
            requires
                n <= 0xFFFF_FFFF_FFFF_FFFF,
        ;
    }
    while hi - lo > 1
        invariant
            0 <= lo < hi <= 0x1_0000_0000,
            (lo as int) * (lo as int) <= n as int,
            (n as int) < (hi as int) * (hi as int),
        decreases hi - lo,
    {
        let mid: u64 = lo + (hi - lo) / 2;
        proof {
            assert((mid as int) * (mid as int) < 0x1_0000_0000_0000_0000) by (nonlinear_arith)
                requires
                    mid < 0x1_0000_0000,
            ;
        }
        if mid * mid <= n {
            lo = mid;
        } else {
            hi = mid;
        }
    }
    proof {
        let w: int = choose|r: int|
            #![trigger r * r]
            0 <= r && r * r <= n as int && (n as int) < (r + 1) * (r + 1);
        assert(0 <= lo as int && (lo as int) * (lo as int) <= n as int && (n as int) < ((lo as int)
            + 1) * ((lo as int) + 1));
        lemma_isqrt_unique(n as int, lo as int, w);
    }
    lo
}

} // verus!
