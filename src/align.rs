//! Rounding sizes up to the granularity that GPU copies require.

use vstd::prelude::*;

verus! {

/// `a / b` rounded up, for a positive `b`.
pub open spec fn ceil_div(a: nat, b: nat) -> nat
    recommends
        b > 0,
{
    ((a + b - 1) as nat / b) as nat
}

/// The least multiple of `align` that is not below `size`.
pub open spec fn align_up(size: nat, align: nat) -> nat
    recommends
        align > 0,
{
    ceil_div(size, align) * align
}

/// Rounds `size` up to the next multiple of `align`.
pub fn align_buffer_size(size: u32, align: u64) -> (r: u64)
    requires
        align > 0,
    ensures
        r == align_up(size as nat, align as nat),
        r % align == 0,
        size <= r < size + align,
{
    let s = size as u64;
    let q = s / align;
    let rem = s % align;
    proof {
        assert(s == q * align + rem) by (nonlinear_arith)
            requires q == s / align, rem == s % align, align > 0;
        assert(q * align <= s) by (nonlinear_arith)
            requires s == q * align + rem, rem >= 0;
    }
    if rem == 0 {
        proof {
            assert(((s + align - 1) as nat / align as nat) == q) by (nonlinear_arith)
                requires s == q * align, align > 0, q >= 0;
        }
        assert(((q * align) as int) % (align as int) == 0) by (nonlinear_arith) requires align > 0;
        q * align
    } else {
        proof {
            assert((q + 1) * align == q * align + align) by (nonlinear_arith);
            assert(q == 0 || align <= q * align) by (nonlinear_arith) requires q >= 0, align > 0;
            assert(((q + 1) * align) % (align as int) == 0) by (nonlinear_arith) requires align > 0, q >= 0;
            assert(((s + align - 1) as nat / align as nat) == q + 1) by (nonlinear_arith)
                requires s == q * align + rem, 0 < rem < align, q >= 0;
        }
        q * align + align
    }
}

} // verus!
