//! Clamped arithmetic.

use vstd::prelude::*;

verus! {

/// `value`, or the largest `usize` where it does not fit.
pub open spec fn clamp_usize(value: nat) -> usize {
    if value > usize::MAX {
        usize::MAX
    } else {
        value as usize
    }
}

/// `value`, or the largest `u64` where it does not fit.
pub open spec fn clamp_u64(value: nat) -> u64 {
    if value > u64::MAX {
        u64::MAX
    } else {
        value as u64
    }
}

/// `value`, or the largest `u32` where it does not fit.
pub open spec fn clamp_u32(value: nat) -> u32 {
    if value > u32::MAX {
        u32::MAX
    } else {
        value as u32
    }
}

/// Product clamped to the largest `usize`.
pub fn saturating_mul_usize(left: usize, right: usize) -> (product: usize)
    ensures
        product == clamp_usize((left * right) as nat),
{
    match left.checked_mul(right) {
        Some(product) => product,
        None => usize::MAX,
    }
}

/// Product clamped to the largest `u64`.
pub fn saturating_mul_u64(left: u64, right: u64) -> (product: u64)
    ensures
        product == clamp_u64((left * right) as nat),
{
    match left.checked_mul(right) {
        Some(product) => product,
        None => u64::MAX,
    }
}

/// Least number of groups of `size` that hold `count` items.
pub open spec fn ceil_div(count: nat, size: nat) -> nat {
    if count % size == 0 {
        count / size
    } else {
        count / size + 1
    }
}

/// Quotient rounded up.
pub fn div_ceil_usize(count: usize, size: usize) -> (groups: usize)
    requires
        size > 0,
    ensures
        groups == ceil_div(count as nat, size as nat),
{
    let whole: usize = count / size;
    if count % size == 0 {
        whole
    } else {
        assert(whole < usize::MAX) by (nonlinear_arith)
            requires
                whole == count / size,
                count % size != 0,
                size > 0,
                count <= usize::MAX,
        ;
        whole + 1
    }
}

/// Length as a `u32`, clamped.
pub fn clamp_to_u32(value: usize) -> (clamped: u32)
    ensures
        clamped == clamp_u32(value as nat),
{
    if value > u32::MAX as usize {
        u32::MAX
    } else {
        value as u32
    }
}

/// The smaller of two sizes.
pub fn min_usize(left: usize, right: usize) -> (least: usize)
    ensures
        least == (if left <= right {
            left
        } else {
            right
        }),
{
    if left <= right {
        left
    } else {
        right
    }
}

/// Clamping a factor first does not change a clamped product.
pub proof fn lemma_clamp_usize_mul(value: nat, factor: nat)
    ensures
        clamp_usize(clamp_usize(value) as nat * factor) == clamp_usize(value * factor),
{
    if value > usize::MAX && factor > 0 {
        assert(usize::MAX as nat * factor >= usize::MAX) by (nonlinear_arith)
            requires
                factor >= 1,
        ;
        assert(value * factor >= usize::MAX) by (nonlinear_arith)
            requires
                value > usize::MAX,
                factor >= 1,
        ;
    } else if value > usize::MAX {
        assert(usize::MAX as nat * factor == 0) by (nonlinear_arith)
            requires
                factor == 0,
        ;
        assert(value * factor == 0) by (nonlinear_arith)
            requires
                factor == 0,
        ;
    }
}

} // verus!
