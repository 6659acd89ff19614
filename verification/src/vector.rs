//! Three-component vectors over fixed-point scalars.
//!
//! `Vector3` is the executable type; its view `V3` carries the same three
//! components as unbounded integers, and all geometric specifications are
//! stated over `V3`. Every executable operation returns exactly the value its
//! specification function describes.

use vstd::prelude::*;

use crate::fx::LIM;
use crate::fx::SCALE;
use crate::fx::div_e;
use crate::fx::fxmul;
use crate::fx::fxmul_spec;
use crate::fx::is_sqrt_floor;
use crate::fx::isqrt;
use crate::fx::lemma_div_le;
use crate::fx::lemma_fxmul_bound;
use crate::fx::lemma_mul_le;
use crate::fx::lemma_sqrt_floor;
use crate::fx::lemma_sqrt_floor_unique;
use crate::fx::sqrt_floor;

verus! {

/// A vector with fixed-point components.
#[derive(Clone, Copy, Debug, PartialEq, Eq, Structural)]
pub struct Vector3 {
    pub x: i128,
    pub y: i128,
    pub z: i128,
}

/// The mathematical model of a `Vector3`: the same components, as integers.
pub ghost struct V3 {
    pub x: int,
    pub y: int,
    pub z: int,
}

impl View for Vector3 {
    type V = V3;

    open spec fn view(&self) -> V3 {
        V3 { x: self.x as int, y: self.y as int, z: self.z as int }
    }
}

impl V3 {
    /// Every component lies in `[-b, b]`.
    pub open spec fn bounded(self, b: int) -> bool {
        &&& -b <= self.x <= b
        &&& -b <= self.y <= b
        &&& -b <= self.z <= b
    }

    /// Component-wise sum.
    pub open spec fn plus(self, o: V3) -> V3 {
        V3 { x: self.x + o.x, y: self.y + o.y, z: self.z + o.z }
    }

    /// Component-wise difference.
    pub open spec fn minus(self, o: V3) -> V3 {
        V3 { x: self.x - o.x, y: self.y - o.y, z: self.z - o.z }
    }

    /// Fixed-point scaling of every component by `k`.
    pub open spec fn scaled(self, k: int) -> V3 {
        V3 { x: fxmul_spec(self.x, k), y: fxmul_spec(self.y, k), z: fxmul_spec(self.z, k) }
    }

    /// Raw inner product: exact, in squared fixed-point units.
    pub open spec fn dot_raw(self, o: V3) -> int {
        self.x * o.x + self.y * o.y + self.z * o.z
    }

    /// Fixed-point inner product.
    pub open spec fn dot_fx(self, o: V3) -> int {
        self.dot_raw(o) / (SCALE as int)
    }

    /// Raw squared length: exact, in squared fixed-point units.
    pub open spec fn len2(self) -> int {
        self.dot_raw(self)
    }

    /// Fixed-point length: the rounded-down square root of the raw squared
    /// length.
    pub open spec fn norm(self) -> int {
        sqrt_floor(self.len2())
    }

    /// Fixed-point cross product.
    pub open spec fn crossed(self, o: V3) -> V3 {
        V3 {
            x: (self.y * o.z - self.z * o.y) / (SCALE as int),
            y: (self.z * o.x - self.x * o.z) / (SCALE as int),
            z: (self.x * o.y - self.y * o.x) / (SCALE as int),
        }
    }

    /// The zero vector.
    pub open spec fn zero() -> V3 {
        V3 { x: 0, y: 0, z: 0 }
    }

    /// Fixed-point normalization. A zero vector stays the zero vector; this
    /// renderer treats such degenerate rays as hitting nothing rather than
    /// failing.
    pub open spec fn normalized(self) -> V3 {
        if self.len2() == 0 {
            V3::zero()
        } else {
            let n = self.norm();
            V3 {
                x: (self.x * (SCALE as int)) / n,
                y: (self.y * (SCALE as int)) / n,
                z: (self.z * (SCALE as int)) / n,
            }
        }
    }
}

/// A raw inner product of vectors bounded by `aa` and `bb` is bounded by
/// `3 * aa * bb`.
pub proof fn lemma_dot_raw_bound(a: V3, b: V3, aa: int, bb: int)
    requires
        a.bounded(aa),
        b.bounded(bb),
        0 <= aa,
        0 <= bb,
    ensures
        -3 * (aa * bb) <= a.dot_raw(b) <= 3 * (aa * bb),
{
    lemma_mul_le(a.x, b.x, aa, bb);
    lemma_mul_le(a.y, b.y, aa, bb);
    lemma_mul_le(a.z, b.z, aa, bb);
}

/// A squared length is never negative, and vanishes only on the zero vector.
pub proof fn lemma_len2_nonneg(a: V3)
    ensures
        a.len2() >= 0,
        a.len2() == 0 ==> a == V3::zero(),
{
    assert(a.x * a.x >= 0 && (a.x != 0 ==> a.x * a.x > 0)) by (nonlinear_arith);
    assert(a.y * a.y >= 0 && (a.y != 0 ==> a.y * a.y > 0)) by (nonlinear_arith);
    assert(a.z * a.z >= 0 && (a.z != 0 ==> a.z * a.z > 0)) by (nonlinear_arith);
}

/// Scaling a bounded vector by a bounded factor keeps it bounded.
pub proof fn lemma_scaled_bound(a: V3, k: int, aa: int, bb: int, c: int)
    requires
        a.bounded(aa),
        -bb <= k <= bb,
        0 <= aa,
        0 <= bb,
        0 <= c,
        aa * bb <= (SCALE as int) * c,
    ensures
        a.scaled(k).bounded(c),
{
    lemma_fxmul_bound(a.x, k, aa, bb, c);
    lemma_fxmul_bound(a.y, k, aa, bb, c);
    lemma_fxmul_bound(a.z, k, aa, bb, c);
}

/// The cross product of bounded vectors is bounded.
pub proof fn lemma_crossed_bound(a: V3, b: V3, aa: int, bb: int, c: int)
    requires
        a.bounded(aa),
        b.bounded(bb),
        0 <= aa,
        0 <= bb,
        0 <= c,
        2 * (aa * bb) <= (SCALE as int) * c,
    ensures
        a.crossed(b).bounded(c),
{
    lemma_mul_le(a.y, b.z, aa, bb);
    lemma_mul_le(a.z, b.y, aa, bb);
    lemma_mul_le(a.z, b.x, aa, bb);
    lemma_mul_le(a.x, b.z, aa, bb);
    lemma_mul_le(a.x, b.y, aa, bb);
    lemma_mul_le(a.y, b.x, aa, bb);
    lemma_div_le(a.y * b.z - a.z * b.y, SCALE as int, c);
    lemma_div_le(a.z * b.x - a.x * b.z, SCALE as int, c);
    lemma_div_le(a.x * b.y - a.y * b.x, SCALE as int, c);
}

/// A normalized vector is bounded by one fixed-point unit.
pub proof fn lemma_normalized_bounded(a: V3)
    ensures
        a.normalized().bounded(SCALE as int),
{
    lemma_len2_nonneg(a);
    if a.len2() != 0 {
        let n = a.norm();
        lemma_sqrt_floor(a.len2());
        lemma_component_le_norm(a);
        lemma_scaled_between(a.x, n);
        lemma_scaled_between(a.y, n);
        lemma_scaled_between(a.z, n);
        lemma_div_le(a.x * (SCALE as int), n, SCALE as int);
        lemma_div_le(a.y * (SCALE as int), n, SCALE as int);
        lemma_div_le(a.z * (SCALE as int), n, SCALE as int);
    }
}

/// For `-n <= x <= n`, scaling by the fixed-point unit stays between the
/// scaled bounds.
proof fn lemma_scaled_between(x: int, n: int)
    requires
        -n <= x <= n,
    ensures
        -(n * (SCALE as int)) <= x * (SCALE as int) <= n * (SCALE as int),
{
    vstd::arithmetic::mul::lemma_mul_inequality(x, n, SCALE as int);
    vstd::arithmetic::mul::lemma_mul_inequality(-n, x, SCALE as int);
    vstd::arithmetic::mul::lemma_mul_unary_negation(n, SCALE as int);
}

/// Each component of a vector is bounded in magnitude by the vector's length.
proof fn lemma_component_le_norm(a: V3)
    requires
        a.len2() > 0,
    ensures
        a.norm() >= 1,
        -a.norm() <= a.x <= a.norm(),
        -a.norm() <= a.y <= a.norm(),
        -a.norm() <= a.z <= a.norm(),
{
    lemma_len2_nonneg(a);
    lemma_sqrt_floor(a.len2());
    let n = a.norm();
    assert(n >= 1 && -n <= a.x <= n && -n <= a.y <= n && -n <= a.z <= n) by (nonlinear_arith)
        requires
            a.x * a.x + a.y * a.y + a.z * a.z > 0,
            0 <= n,
            n * n <= a.x * a.x + a.y * a.y + a.z * a.z,
            a.x * a.x + a.y * a.y + a.z * a.z < (n + 1) * (n + 1),
    ;
}

impl Vector3 {
    /// Component-wise sum.
    pub fn add(self, other: Vector3) -> (r: Vector3)
        requires
            self@.bounded(LIM as int),
            other@.bounded(LIM as int),
        ensures
            r@ == self@.plus(other@),
    {
        Vector3 { x: self.x + other.x, y: self.y + other.y, z: self.z + other.z }
    }

    /// Component-wise difference.
    pub fn subtract(self, other: Vector3) -> (r: Vector3)
        requires
            self@.bounded(LIM as int),
            other@.bounded(LIM as int),
        ensures
            r@ == self@.minus(other@),
    {
        Vector3 { x: self.x - other.x, y: self.y - other.y, z: self.z - other.z }
    }

    /// Fixed-point scaling by `k`.
    pub fn scale(self, k: i128) -> (r: Vector3)
        requires
            self@.bounded(LIM as int),
            -LIM <= k <= LIM,
        ensures
            r@ == self@.scaled(k as int),
    {
        Vector3 { x: fxmul(self.x, k), y: fxmul(self.y, k), z: fxmul(self.z, k) }
    }

    /// Raw inner product, in squared fixed-point units.
    pub(crate) fn dot_raw(self, other: Vector3) -> (r: i128)
        requires
            self@.bounded(LIM as int),
            other@.bounded(LIM as int),
        ensures
            r == self@.dot_raw(other@),
    {
        proof {
            lemma_mul_le(self@.x, other@.x, LIM as int, LIM as int);
            lemma_mul_le(self@.y, other@.y, LIM as int, LIM as int);
            lemma_mul_le(self@.z, other@.z, LIM as int, LIM as int);
        }
        self.x * other.x + self.y * other.y + self.z * other.z
    }

    /// Fixed-point inner product.
    pub fn dot(self, other: Vector3) -> (r: i128)
        requires
            self@.bounded(LIM as int),
            other@.bounded(LIM as int),
        ensures
            r == self@.dot_fx(other@),
    {
        let raw = self.dot_raw(other);
        div_e(raw, SCALE)
    }

    /// Fixed-point cross product.
    pub fn cross(self, other: Vector3) -> (r: Vector3)
        requires
            self@.bounded(LIM as int),
            other@.bounded(LIM as int),
        ensures
            r@ == self@.crossed(other@),
    {
        proof {
            lemma_mul_le(self@.y, other@.z, LIM as int, LIM as int);
            lemma_mul_le(self@.z, other@.y, LIM as int, LIM as int);
            lemma_mul_le(self@.z, other@.x, LIM as int, LIM as int);
            lemma_mul_le(self@.x, other@.z, LIM as int, LIM as int);
            lemma_mul_le(self@.x, other@.y, LIM as int, LIM as int);
            lemma_mul_le(self@.y, other@.x, LIM as int, LIM as int);
        }
        Vector3 {
            x: div_e(self.y * other.z - self.z * other.y, SCALE),
            y: div_e(self.z * other.x - self.x * other.z, SCALE),
            z: div_e(self.x * other.y - self.y * other.x, SCALE),
        }
    }

    /// Fixed-point length.
    pub fn length(self) -> (r: i128)
        requires
            self@.bounded(LIM as int),
        ensures
            r == self@.norm(),
            r >= 0,
    {
        proof {
            lemma_dot_raw_bound(self@, self@, LIM as int, LIM as int);
            lemma_len2_nonneg(self@);
        }
        let len2 = self.dot_raw(self);
        let r = isqrt(len2 as u128);
        proof {
            lemma_sqrt_floor(self@.len2());
        }
        r as i128
    }

    /// Fixed-point normalization: a vector of (approximately) unit length in
    /// the same direction. The zero vector normalizes to itself.
    pub fn normalize(self) -> (r: Vector3)
        requires
            self@.bounded(LIM as int),
        ensures
            r@ == self@.normalized(),
            r@.bounded(SCALE as int),
    {
        let len = self.length();
        proof {
            lemma_len2_nonneg(self@);
            lemma_sqrt_floor(self@.len2());
            lemma_normalized_bounded(self@);
        }
        if len == 0 {
            proof {
                assert(is_sqrt_floor(self@.len2(), 0));
                assert((0 + 1) * (0 + 1) == 1) by (nonlinear_arith);
            }
            Vector3 { x: 0, y: 0, z: 0 }
        } else {
            proof {
                if self@.len2() == 0 {
                    assert(is_sqrt_floor(0, 0));
                    lemma_sqrt_floor_unique(0, self@.norm(), 0);
                }
                assert(self@.len2() != 0);
                lemma_component_le_norm(self@);
                lemma_mul_le(self@.x, SCALE as int, LIM as int, SCALE as int);
                lemma_mul_le(self@.y, SCALE as int, LIM as int, SCALE as int);
                lemma_mul_le(self@.z, SCALE as int, LIM as int, SCALE as int);
            }
            let rx = div_e(self.x * SCALE, len);
            let ry = div_e(self.y * SCALE, len);
            let rz = div_e(self.z * SCALE, len);
            Vector3 { x: rx, y: ry, z: rz }
        }
    }
}

} // verus!
