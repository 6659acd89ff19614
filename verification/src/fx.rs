//! Fixed-point scalars and the small arithmetic toolkit the renderer rests on.
//!
//! A real number `x` is represented by the integer `x * SCALE`, rounded toward
//! negative infinity wherever a division is involved. All scalars live in
//! `i128`; the bound `LIM` keeps every product of two admitted scalars inside
//! `i128`.

use vstd::prelude::*;

verus! {

/// The fixed-point unit: 1.0 is represented by `SCALE`.
pub const SCALE: i128 = 65536;

/// Magnitude bound accepted by the arithmetic helpers. Products of two values
/// bounded by `LIM` (and sums of three such products) still fit in `i128`.
pub const LIM: i128 = 0x4000_0000_0000_0000;

/// The fixed-point product of `a` and `b`, rounded toward negative infinity.
pub open spec fn fxmul_spec(a: int, b: int) -> int {
    (a * b) / (SCALE as int)
}

/// `r` is the integer square root of `n`, rounded down.
pub open spec fn is_sqrt_floor(n: int, r: int) -> bool {
    0 <= r && r * r <= n && n < (r + 1) * (r + 1)
}

/// The integer square root of `n`, rounded down (for `n >= 0`; see
/// `lemma_sqrt_floor`).
pub open spec fn sqrt_floor(n: int) -> int {
    choose|r: int| is_sqrt_floor(n, r)
}

/// Bounded product: from bounds on the factors, a bound on the product.
pub proof fn lemma_mul_le(a: int, b: int, aa: int, bb: int)
    by (nonlinear_arith)
    requires
        -aa <= a <= aa,
        -bb <= b <= bb,
        0 <= aa,
        0 <= bb,
    ensures
        -(aa * bb) <= a * b <= aa * bb,
{
}

/// Euclidean division by a positive divisor keeps the quotient between the
/// (divisor-scaled) bounds of the dividend.
pub proof fn lemma_div_le(a: int, b: int, c: int)
    requires
        b > 0,
        -(b * c) <= a <= b * c,
        0 <= c,
    ensures
        -c <= a / b <= c,
{
    vstd::arithmetic::div_mod::lemma_div_multiples_vanish(c, b);
    vstd::arithmetic::div_mod::lemma_div_multiples_vanish(-c, b);
    assert(b * (-c) == -(b * c)) by (nonlinear_arith);
    vstd::arithmetic::div_mod::lemma_div_is_ordered(-(b * c), a, b);
    vstd::arithmetic::div_mod::lemma_div_is_ordered(a, b * c, b);
}

/// Bound on a fixed-point product, given bounds on its factors.
pub proof fn lemma_fxmul_bound(a: int, b: int, aa: int, bb: int, c: int)
    requires
        -aa <= a <= aa,
        -bb <= b <= bb,
        0 <= aa,
        0 <= bb,
        0 <= c,
        aa * bb <= (SCALE as int) * c,
    ensures
        -c <= fxmul_spec(a, b) <= c,
{
    lemma_mul_le(a, b, aa, bb);
    lemma_div_le(a * b, SCALE as int, c);
}

/// Euclidean division (quotient rounded toward negative infinity for a
/// positive divisor), matching the `/` of specifications exactly.
pub fn div_e(a: i128, b: i128) -> (r: i128)
    requires
        b > 0,
    ensures
        r == a as int / b as int,
{
    proof {
        let ai = a as int;
        let bi = b as int;
        if a >= 0 {
            vstd::arithmetic::div_mod::lemma_div_pos_is_pos(ai, bi);
            vstd::arithmetic::div_mod::lemma_div_nonincreasing(ai, bi);
        } else {
            assert(-(bi * (-ai)) <= ai <= bi * (-ai)) by (nonlinear_arith)
                requires
                    bi >= 1,
                    ai < 0,
            ;
            lemma_div_le(ai, bi, -ai);
            vstd::arithmetic::div_mod::lemma_div_is_ordered(ai, 0, bi);
            vstd::arithmetic::div_mod::lemma_div_of0(bi);
        }
    }
    a.checked_div_euclid(b).unwrap()
}

/// The fixed-point product of `a` and `b`.
pub fn fxmul(a: i128, b: i128) -> (r: i128)
    requires
        -LIM <= a <= LIM,
        -LIM <= b <= LIM,
    ensures
        r == fxmul_spec(a as int, b as int),
{
    proof {
        lemma_mul_le(a as int, b as int, LIM as int, LIM as int);
    }
    div_e(a * b, SCALE)
}

/// Existence half of the square-root characterization.
proof fn lemma_sqrt_floor_exists(n: int) -> (r: int)
    requires
        n >= 0,
    ensures
        is_sqrt_floor(n, r),
    decreases n,
{
    if n == 0 {
        assert(is_sqrt_floor(0, 0));
        0
    } else {
        let r0 = lemma_sqrt_floor_exists(n - 1);
        if (r0 + 1) * (r0 + 1) <= n {
            assert(((r0 + 1) + 1) * ((r0 + 1) + 1) > n) by (nonlinear_arith)
                requires
                    (r0 + 1) * (r0 + 1) <= n,
                    n - 1 < (r0 + 1) * (r0 + 1),
                    0 <= r0,
            ;
            assert(is_sqrt_floor(n, r0 + 1));
            r0 + 1
        } else {
            assert(is_sqrt_floor(n, r0));
            r0
        }
    }
}

/// The integer square root, rounded down, is unique.
pub proof fn lemma_sqrt_floor_unique(n: int, r1: int, r2: int)
    requires
        is_sqrt_floor(n, r1),
        is_sqrt_floor(n, r2),
    ensures
        r1 == r2,
{
    assert(r1 == r2) by (nonlinear_arith)
        requires
            0 <= r1,
            r1 * r1 <= n,
            n < (r1 + 1) * (r1 + 1),
            0 <= r2,
            r2 * r2 <= n,
            n < (r2 + 1) * (r2 + 1),
    ;
}

/// For `n >= 0`, `sqrt_floor(n)` really is the rounded-down square root.
pub proof fn lemma_sqrt_floor(n: int)
    requires
        n >= 0,
    ensures
        is_sqrt_floor(n, sqrt_floor(n)),
{
    let r = lemma_sqrt_floor_exists(n);
    assert(exists|x: int| is_sqrt_floor(n, x));
}

/// The integer square root of `n`, rounded down, by bisection.
pub fn isqrt(n: u128) -> (r: u128)
    ensures
        r as int == sqrt_floor(n as int),
        is_sqrt_floor(n as int, r as int),
        r < 0x1_0000_0000_0000_0000,
{
    let mut lo: u128 = 0;
    let mut hi: u128 = 0x1_0000_0000_0000_0000;
    while lo + 1 < hi
        invariant
            lo < hi <= 0x1_0000_0000_0000_0000,
            (lo as int) * (lo as int) <= n as int,
            (hi as int) * (hi as int) > n as int,
        decreases hi - lo,
    {
        proof {
            vstd::arithmetic::div_mod::lemma_div_is_ordered(2, (hi - lo) as int, 2);
            vstd::arithmetic::div_mod::lemma_div_decreases((hi - lo) as int, 2);
        }
        let mid: u128 = lo + (hi - lo) / 2;
        proof {
            lemma_mul_le(mid as int, mid as int, 0xFFFF_FFFF_FFFF_FFFF, 0xFFFF_FFFF_FFFF_FFFF);
        }
        let sq: u128 = mid * mid;
        if sq <= n {
            lo = mid;
        } else {
            hi = mid;
        }
    }
    proof {
        lemma_sqrt_floor(n as int);
        lemma_sqrt_floor_unique(n as int, lo as int, sqrt_floor(n as int));
    }
    lo
}

} // verus!
