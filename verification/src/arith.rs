//! Saturating arithmetic.
use vstd::prelude::*;

verus! {

/// The product, or the greatest number of the type where the product does not fit.
pub open spec fn saturating_product(a: u32, b: u32) -> u32 {
    if a * b > u32::MAX {
        u32::MAX
    } else {
        (a * b) as u32
    }
}

/// The product, or the greatest number of the type where the product does not fit.
pub fn saturating_mul(a: u32, b: u32) -> (r: u32)
    ensures
        r == saturating_product(a, b),
{
    proof {
        assert(a * b <= 0xffff_ffffu64 * 0xffff_ffffu64) by (nonlinear_arith)
            requires
                0 <= a <= 0xffff_ffff,
                0 <= b <= 0xffff_ffff,
        ;
    }
    let wide: u64 = a as u64 * b as u64;
    if wide > 0xffff_ffff {
        0xffff_ffff
    } else {
        wide as u32
    }
}

/// The smaller of two numbers.
pub open spec fn least(a: int, b: int) -> int {
    if a <= b {
        a
    } else {
        b
    }
}

} // verus!
