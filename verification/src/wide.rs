//! Products of 128-bit numbers, computed in full and compared without loss.

use vstd::prelude::*;

verus! {

/// 2^64: the base in which a 128-bit number has two digits.
pub const LIMB: u128 = 0x1_0000_0000_0000_0000;

/// 2^128: one more than the largest `u128`.
pub open spec fn span() -> int {
    0x1_0000_0000_0000_0000_0000_0000_0000_0000int
}

/// The product of two numbers below 2^64 fits in 128 bits.
proof fn lemma_digit_product(a: u128, b: u128)
    requires
        a < LIMB,
        b < LIMB,
    ensures
        a * b <= (LIMB - 1) * (LIMB - 1),
        a * b <= u128::MAX,
{
    assert(a * b <= (LIMB - 1) * (LIMB - 1)) by (nonlinear_arith)
        requires
            0 <= a <= LIMB - 1,
            0 <= b <= LIMB - 1,
    ;
}

/// Long multiplication of two two-digit numbers, digit by digit.
proof fn lemma_long_multiplication(x1: int, x0: int, y1: int, y0: int, base: int)
    ensures
        (x1 * base + x0) * (y1 * base + y0) == (x1 * y1) * (base * base) + (x0 * y1 + x1 * y0)
            * base + x0 * y0,
{
    let a = x1 * base;
    let c = y1 * base;
    assert((a + x0) * (c + y0) == a * c + a * y0 + x0 * c + x0 * y0) by (nonlinear_arith);
    assert(a * c == (x1 * y1) * (base * base)) by (nonlinear_arith)
        requires
            a == x1 * base,
            c == y1 * base,
    ;
    assert(a * y0 == (x1 * y0) * base) by (nonlinear_arith)
        requires
            a == x1 * base,
    ;
    assert(x0 * c == (x0 * y1) * base) by (nonlinear_arith)
        requires
            c == y1 * base,
    ;
    assert((x0 * y1 + x1 * y0) * base == (x0 * y1) * base + (x1 * y0) * base)
        by (nonlinear_arith);
}

/// The full product of `x` and `y`, as its high and low 128 bits.
pub fn full_product(x: u128, y: u128) -> (r: (u128, u128))
    ensures
        r.0 * span() + r.1 == x * y,
{
    let x1: u128 = x / LIMB;
    let x0: u128 = x % LIMB;
    let y1: u128 = y / LIMB;
    let y0: u128 = y % LIMB;
    proof {
        lemma_digit_product(x0, y0);
        lemma_digit_product(x0, y1);
        lemma_digit_product(x1, y0);
        lemma_digit_product(x1, y1);
    }
    let low: u128 = x0 * y0;
    let mid_a: u128 = x0 * y1;
    let mid_b: u128 = x1 * y0;
    let high: u128 = x1 * y1;
    // Column of 2^64: the low digits of both middle products and the carry
    // out of the lowest product.
    let column: u128 = mid_a % LIMB + mid_b % LIMB + low / LIMB;
    let r1: u128 = (column % LIMB) * LIMB + low % LIMB;
    let r0: u128 = high + mid_a / LIMB + mid_b / LIMB + column / LIMB;
    proof {
        lemma_long_multiplication(x1 as int, x0 as int, y1 as int, y0 as int, LIMB as int);
        assert(LIMB as int * LIMB as int == span());
        assert(x == x1 * LIMB + x0);
        assert(y == y1 * LIMB + y0);
        assert(x * y == (x1 * LIMB + x0) * (y1 * LIMB + y0));
        let m: int = mid_a + mid_b;
        assert(x * y == high * span() + m * LIMB + low);
        assert(m == (mid_a / LIMB + mid_b / LIMB) * LIMB + mid_a % LIMB + mid_b % LIMB);
        assert(m * LIMB == (mid_a / LIMB + mid_b / LIMB) * span() + (mid_a % LIMB + mid_b % LIMB)
            * LIMB) by (nonlinear_arith)
            requires
                m == (mid_a / LIMB + mid_b / LIMB) * LIMB + mid_a % LIMB + mid_b % LIMB,
                LIMB as int * LIMB as int == span(),
        ;
        assert(column * LIMB == (column / LIMB) * span() + (column % LIMB) * LIMB)
            by (nonlinear_arith)
            requires
                column == (column / LIMB) * LIMB + column % LIMB,
                LIMB as int * LIMB as int == span(),
        ;
    }
    (r0, r1)
}

/// Whether `a * b` is greater than `c * d`, decided on the full products.
pub fn product_exceeds(a: u128, b: u128, c: u128, d: u128) -> (r: bool)
    ensures
        r == (a * b > c * d),
{
    let left = full_product(a, b);
    let right = full_product(c, d);
    left.0 > right.0 || (left.0 == right.0 && left.1 > right.1)
}

} // verus!
