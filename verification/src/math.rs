//! Checked arithmetic primitives for reserve and share accounting.
//!
//! Every operation either returns an exact integer result or reports that the
//! result does not fit the balance width; nothing wraps or saturates.

use vstd::prelude::*;

verus! {

/// Relates `b` to `m / a` so that a comparison against `m / a` decides
/// whether the product `a * b` fits below `m`.
pub proof fn lemma_mul_div_check(a: int, b: int, m: int)
    by (nonlinear_arith)
    requires
        0 < a,
        0 <= b,
        0 <= m,
    ensures
        b <= m / a ==> a * b <= m,
        b > m / a ==> a * b > m,
{
}

/// Checked product of two balances: `Some` exactly when the mathematical
/// product fits in `u128`.
pub fn mul_checked(a: u128, b: u128) -> (r: Option<u128>)
    ensures
        a * b <= u128::MAX ==> r == Some((a * b) as u128),
        a * b > u128::MAX ==> r is None,
{
    if a == 0 {
        Some(0)
    } else {
        proof {
            lemma_mul_div_check(a as int, b as int, u128::MAX as int);
        }
        if b <= u128::MAX / a {
            Some(a * b)
        } else {
            None
        }
    }
}

/// Checked sum of two balances: `Some` exactly when the mathematical sum
/// fits in `u128`.
pub fn add_checked(a: u128, b: u128) -> (r: Option<u128>)
    ensures
        a + b <= u128::MAX ==> r == Some((a + b) as u128),
        a + b > u128::MAX ==> r is None,
{
    if b <= u128::MAX - a {
        Some(a + b)
    } else {
        None
    }
}

/// `r` is the integer square root of `x`, rounded down.
pub open spec fn is_sqrt_floor(r: int, x: int) -> bool {
    &&& r * r <= x
    &&& (r + 1) * (r + 1) > x
}

/// The integer square root is unique.
pub proof fn lemma_sqrt_floor_unique(a: int, b: int, x: int)
    by (nonlinear_arith)
    requires
        a >= 0,
        b >= 0,
        a * a <= x,
        (a + 1) * (a + 1) > x,
        b * b <= x,
        (b + 1) * (b + 1) > x,
    ensures
        a == b,
{
}

/// Integer square root, rounded down; used for the liquidity-independent
/// share formula at first mint.
pub fn sqrt_floor(x: u128) -> (r: u128)
    ensures
        is_sqrt_floor(r as int, x as int),
        x > 0 ==> r >= 1,
{
    let mut lo: u128 = 0;
    let mut hi: u128 = 0xFFFF_FFFF_FFFF_FFFF;
    proof {
        assert((0xFFFF_FFFF_FFFF_FFFFu128 + 1) * (0xFFFF_FFFF_FFFF_FFFFu128 + 1) > u128::MAX as int)
            by (nonlinear_arith);
    }
    while lo < hi
        invariant
            lo <= hi,
            hi <= 0xFFFF_FFFF_FFFF_FFFF,
            lo * lo <= x,
            (hi + 1) * (hi + 1) > x,
        decreases hi - lo,
    {
        let mid: u128 = lo + (hi - lo + 1) / 2;
        proof {
            assert(mid * mid <= 0xFFFF_FFFF_FFFF_FFFFu128 * 0xFFFF_FFFF_FFFF_FFFFu128)
                by (nonlinear_arith)
                requires
                    0 <= mid <= 0xFFFF_FFFF_FFFF_FFFFu128,
            ;
        }
        if mid * mid <= x {
            lo = mid;
        } else {
            hi = mid - 1;
        }
    }
    proof {
        if lo == 0 {
            assert((lo + 1) * (lo + 1) == 1) by (nonlinear_arith)
                requires
                    lo == 0u128,
            ;
        }
    }
    lo
}

} // verus!
