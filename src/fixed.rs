//! Fixed-point signal arithmetic.
//!
//! A signal value is an `i64` counting millionths: `SCALE` stands for 1.0.
//! Every operation saturates at the bounds of `i64` and rounds a quotient
//! towards negative infinity.
use vstd::prelude::*;

verus! {

/// The fixed-point representation of 1.0.
pub const SCALE: i64 = 1_000_000;

/// Saturation of a mathematical integer into the range of `i64`.
pub open spec fn clamp(x: int) -> int {
    if x < i64::MIN {
        i64::MIN as int
    } else if x > i64::MAX {
        i64::MAX as int
    } else {
        x
    }
}

/// The saturated fixed-point product of `a` and `b`.
pub open spec fn mul_spec(a: int, b: int) -> int {
    clamp((a * b) / (SCALE as int))
}

/// The saturated fixed-point quotient of `a` by a positive `d`.
pub open spec fn div_spec(a: int, d: int) -> int {
    clamp((a * SCALE) / d)
}

fn clamp_wide(x: i128) -> (r: i64)
    ensures
        r == clamp(x as int),
{
    if x < i64::MIN as i128 {
        i64::MIN
    } else if x > i64::MAX as i128 {
        i64::MAX
    } else {
        x as i64
    }
}

/// Saturating sum.
pub fn add(a: i64, b: i64) -> (r: i64)
    ensures
        r == clamp(a + b),
{
    clamp_wide(a as i128 + b as i128)
}

/// Saturating difference.
pub fn sub(a: i64, b: i64) -> (r: i64)
    ensures
        r == clamp(a - b),
{
    clamp_wide(a as i128 - b as i128)
}

/// Saturating fixed-point product, rounded down.
pub fn mul(a: i64, b: i64) -> (r: i64)
    ensures
        r == mul_spec(a as int, b as int),
{
    proof {
        lemma_mul_bound(a as int, b as int);
    }
    let p: i128 = a as i128 * b as i128;
    let q = p.checked_div_euclid(SCALE as i128);
    proof {
        lemma_div_pos_bound(p as int, SCALE as int);
    }
    match q {
        Some(q) => clamp_wide(q),
        None => 0,
    }
}

/// Saturating fixed-point quotient by a positive divisor, rounded down.
pub fn div(a: i64, d: i64) -> (r: i64)
    requires
        d > 0,
    ensures
        r == div_spec(a as int, d as int),
{
    proof {
        lemma_mul_bound(a as int, SCALE as int);
    }
    let p: i128 = a as i128 * SCALE as i128;
    let q = p.checked_div_euclid(d as i128);
    proof {
        lemma_div_pos_bound(p as int, d as int);
    }
    match q {
        Some(q) => clamp_wide(q),
        None => 0,
    }
}

proof fn lemma_mul_bound(a: int, b: int)
    requires
        i64::MIN <= a <= i64::MAX,
        i64::MIN <= b <= i64::MAX,
    ensures
        -0x4000_0000_0000_0000_0000_0000_0000_0000 <= a * b <= 0x4000_0000_0000_0000_0000_0000_0000_0000,
{
    assert(-0x4000_0000_0000_0000_0000_0000_0000_0000 <= a * b <= 0x4000_0000_0000_0000_0000_0000_0000_0000) by (nonlinear_arith)
        requires
            -0x8000_0000_0000_0000 <= a <= 0x7fff_ffff_ffff_ffff,
            -0x8000_0000_0000_0000 <= b <= 0x7fff_ffff_ffff_ffff,
    ;
}

proof fn lemma_div_pos_bound(p: int, d: int)
    requires
        d > 0,
        -0x8000_0000_0000_0000_0000_0000_0000_0000 <= p <= 0x7fff_ffff_ffff_ffff_ffff_ffff_ffff_ffff,
    ensures
        -0x8000_0000_0000_0000_0000_0000_0000_0000 <= p / d <= 0x7fff_ffff_ffff_ffff_ffff_ffff_ffff_ffff,
{
    if p >= 0 {
        assert(0 <= p / d <= p) by (nonlinear_arith)
            requires
                p >= 0,
                d > 0,
        ;
    } else {
        assert(p <= p / d < 0) by (nonlinear_arith)
            requires
                p < 0,
                d > 0,
        ;
    }
}

} // verus!
