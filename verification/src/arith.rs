//! Facts about multiplication and division that the other modules lean on.

use vstd::prelude::*;

verus! {

/// The product of two 32-bit numbers fits in 64 bits.
pub proof fn lemma_product_fits(a: u32, b: u32)
    by (nonlinear_arith)
    ensures
        0 <= a * b <= u64::MAX,
{
    assert(a * b <= 0xffff_ffff * 0xffff_ffff);
}

/// For `0 <= x < d * n`, the quotient of `x` by `d` lies below `n`.
pub proof fn lemma_quotient_in_range(x: int, d: int, n: int)
    requires
        0 <= n,
        0 <= x < d * n,
    ensures
        0 < d,
        0 <= x / d < n,
        0 <= x % d < d,
        x == (x / d) * d + x % d,
{
    assert(0 < d) by (nonlinear_arith)
        requires
            0 <= n,
            0 <= x < d * n,
    ;
    vstd::arithmetic::div_mod::lemma_fundamental_div_mod(x, d);
    vstd::arithmetic::div_mod::lemma_mod_pos_bound(x, d);
    let q = x / d;
    assert(0 <= q < n && q * d == d * q) by (nonlinear_arith)
        requires
            0 <= x < d * n,
            x == d * q + x % d,
            0 <= x % d < d,
            0 < d,
    ;
}

/// A quotient and a remainder below the divisor determine division.
pub proof fn lemma_div_mod_unique(x: int, d: int, q: int, r: int)
    requires
        0 <= r < d,
        x == q * d + r,
    ensures
        x / d == q,
        x % d == r,
{
    vstd::arithmetic::div_mod::lemma_fundamental_div_mod_converse(x, d, q, r);
}

} // verus!
