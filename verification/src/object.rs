//! Scene objects: the intersection capability and its concrete shapes.
//!
//! An `Object` answers one question: does a given ray strike it, and at what
//! fixed-point parametric distance `t` along the ray. Hits at computed
//! distance `t <= 0` (at or behind the ray origin) are rejected. A ray's
//! direction is a fixed-point vector as produced by `normalize`; a tangent ray
//! (zero discriminant) with positive `t` always counts as a hit.

use vstd::prelude::*;

use crate::fx::SCALE;
use crate::fx::div_e;
use crate::fx::isqrt;
use crate::fx::lemma_mul_le;
use crate::fx::sqrt_floor;
use crate::vector::V3;
use crate::vector::Vector3;
use crate::vector::lemma_dot_raw_bound;
use crate::vector::lemma_len2_nonneg;

verus! {

/// Bound on the coordinates of scene geometry (positions, centers, radii,
/// plane normals), chosen so that every intermediate of the intersection
/// arithmetic fits in `i128`.
pub const WORLD_MAX: i128 = 0x100_0000_0000;

/// An RGB color, one byte per channel.
#[derive(Clone, Copy, Debug, PartialEq, Eq, Structural)]
pub struct Color {
    pub r: u8,
    pub g: u8,
    pub b: u8,
}

/// The fixed background color: black. Pixels whose ray strikes no object get
/// this color.
pub open spec fn background() -> Color {
    Color { r: 0, g: 0, b: 0 }
}

/// A half-line: origin plus non-negative multiples of a direction.
#[derive(Clone, Copy, Debug, PartialEq, Eq, Structural)]
pub struct Ray {
    pub origin: Vector3,
    pub direction: Vector3,
}

impl Ray {
    /// The origin lies inside the world bound and the direction is at most
    /// one fixed-point unit per component, as `normalize` produces.
    pub open spec fn wf(self) -> bool {
        &&& self.origin@.bounded(WORLD_MAX as int)
        &&& self.direction@.bounded(SCALE as int)
    }
}

/// A sphere, described by its center and fixed-point radius.
#[derive(Clone, Copy, Debug, PartialEq, Eq, Structural)]
pub struct Sphere {
    pub center: Vector3,
    pub radius: i128,
    pub color: Color,
}

impl Sphere {
    pub open spec fn wf(self) -> bool {
        &&& self.center@.bounded(WORLD_MAX as int)
        &&& 0 <= self.radius <= WORLD_MAX
    }
}

/// An infinite plane, described by a point on it and a normal vector.
#[derive(Clone, Copy, Debug, PartialEq, Eq, Structural)]
pub struct Plane {
    pub point: Vector3,
    pub normal: Vector3,
    pub color: Color,
}

impl Plane {
    pub open spec fn wf(self) -> bool {
        &&& self.point@.bounded(WORLD_MAX as int)
        &&& self.normal@.bounded(WORLD_MAX as int)
    }
}

/// The quadratic coefficient `a = d . d` of the ray-sphere equation.
pub open spec fn sphere_a_spec(d: V3) -> int {
    d.dot_raw(d)
}

/// The linear coefficient `b = 2 d . (o - center)`.
pub open spec fn sphere_b_spec(s: Sphere, o: V3, d: V3) -> int {
    2 * d.dot_raw(o.minus(s.center@))
}

/// The constant coefficient `c = (o - center) . (o - center) - radius^2`.
pub open spec fn sphere_c_spec(s: Sphere, o: V3) -> int {
    o.minus(s.center@).dot_raw(o.minus(s.center@)) - s.radius * s.radius
}

/// The discriminant `b^2 - 4 a c` of the ray-sphere equation.
pub open spec fn sphere_disc_spec(s: Sphere, o: V3, d: V3) -> int {
    sphere_b_spec(s, o, d) * sphere_b_spec(s, o, d) - 4 * sphere_a_spec(d) * sphere_c_spec(s, o)
}

/// The smallest positive fixed-point hit distance of a ray against a sphere,
/// if any.
///
/// The candidate distances are the two roots of `a t^2 + b t + c = 0`,
/// computed with a rounded-down square root and rounded-down division. A
/// negative discriminant, a degenerate direction (`a == 0`), or both roots at
/// or behind the origin mean no hit; a zero discriminant (tangent ray) with a
/// positive root is a hit.
pub open spec fn sphere_hit_spec(s: Sphere, o: V3, d: V3) -> Option<int> {
    let a = sphere_a_spec(d);
    if a == 0 {
        None
    } else {
        let b = sphere_b_spec(s, o, d);
        let disc = sphere_disc_spec(s, o, d);
        if disc < 0 {
            None
        } else {
            let sq = sqrt_floor(disc);
            let t1 = ((SCALE as int) * (-b - sq)) / (2 * a);
            let t2 = ((SCALE as int) * (-b + sq)) / (2 * a);
            if t1 > 0 {
                Some(t1)
            } else if t2 > 0 {
                Some(t2)
            } else {
                None
            }
        }
    }
}

/// The positive fixed-point hit distance of a ray against a plane, if any.
/// A ray parallel to the plane (`d . normal == 0`) reports no hit.
pub open spec fn plane_hit_spec(p: Plane, o: V3, d: V3) -> Option<int> {
    let denom = d.dot_raw(p.normal@);
    if denom == 0 {
        None
    } else {
        let num = p.point@.minus(o).dot_raw(p.normal@);
        let t = if denom < 0 {
            ((SCALE as int) * (-num)) / (-denom)
        } else {
            ((SCALE as int) * num) / denom
        };
        if t > 0 {
            Some(t)
        } else {
            None
        }
    }
}

/// A scene object: one of the concrete shapes, with an intrinsic color.
#[derive(Clone, Copy, Debug, PartialEq, Eq, Structural)]
pub enum Object {
    Sphere(Sphere),
    Plane(Plane),
}

impl Object {
    pub open spec fn wf(self) -> bool {
        match self {
            Object::Sphere(s) => s.wf(),
            Object::Plane(p) => p.wf(),
        }
    }

    /// The object's intrinsic color.
    pub open spec fn color_spec(self) -> Color {
        match self {
            Object::Sphere(s) => s.color,
            Object::Plane(p) => p.color,
        }
    }

    /// The smallest positive fixed-point hit distance, if any.
    pub open spec fn hit_spec(self, o: V3, d: V3) -> Option<int> {
        match self {
            Object::Sphere(s) => sphere_hit_spec(s, o, d),
            Object::Plane(p) => plane_hit_spec(p, o, d),
        }
    }
}

/// The executable hit result agrees with the specification-level one.
pub open spec fn opt_matches(r: Option<i128>, s: Option<int>) -> bool {
    match r {
        Option::None => s is None,
        Option::Some(t) => s == Option::Some(t as int),
    }
}

impl Sphere {
    /// The smallest positive hit distance of `ray` against this sphere.
    pub fn hit(&self, ray: &Ray) -> (r: Option<i128>)
        requires
            self.wf(),
            ray.wf(),
        ensures
            opt_matches(r, sphere_hit_spec(*self, ray.origin@, ray.direction@)),
    {
        let d = ray.direction;
        proof {
            lemma_dot_raw_bound(d@, d@, SCALE as int, SCALE as int);
            lemma_len2_nonneg(d@);
        }
        let a = d.dot_raw(d);
        if a == 0 {
            return None;
        }
        let oc = ray.origin.subtract(self.center);
        proof {
            lemma_dot_raw_bound(d@, oc@, SCALE as int, 2 * WORLD_MAX as int);
        }
        let b = 2 * d.dot_raw(oc);
        proof {
            lemma_dot_raw_bound(oc@, oc@, 2 * WORLD_MAX as int, 2 * WORLD_MAX as int);
            lemma_mul_le(
                self.radius as int,
                self.radius as int,
                WORLD_MAX as int,
                WORLD_MAX as int,
            );
        }
        let c = oc.dot_raw(oc) - self.radius * self.radius;
        proof {
            lemma_mul_le(b as int, b as int, 0xC00_0000_0000_0000, 0xC00_0000_0000_0000);
            lemma_mul_le(4 * a as int, c as int, 0xC_0000_0000, 0xD_0000_0000_0000_0000_0000);
        }
        let disc = b * b - 4 * a * c;
        if disc < 0 {
            return None;
        }
        let sq_u = isqrt(disc as u128);
        let sq = sq_u as i128;
        proof {
            lemma_mul_le(SCALE as int, -(b as int) - sq, SCALE as int, 0x2_0000_0000_0000_0000);
            lemma_mul_le(SCALE as int, -(b as int) + sq, SCALE as int, 0x2_0000_0000_0000_0000);
        }
        let t1 = div_e(SCALE * (-b - sq), 2 * a);
        if t1 > 0 {
            return Some(t1);
        }
        let t2 = div_e(SCALE * (-b + sq), 2 * a);
        if t2 > 0 {
            Some(t2)
        } else {
            None
        }
    }
}

impl Plane {
    /// The positive hit distance of `ray` against this plane, unless the ray
    /// is parallel to it.
    pub fn hit(&self, ray: &Ray) -> (r: Option<i128>)
        requires
            self.wf(),
            ray.wf(),
        ensures
            opt_matches(r, plane_hit_spec(*self, ray.origin@, ray.direction@)),
    {
        proof {
            lemma_dot_raw_bound(ray.direction@, self.normal@, SCALE as int, WORLD_MAX as int);
        }
        let denom = ray.direction.dot_raw(self.normal);
        if denom == 0 {
            return None;
        }
        let diff = self.point.subtract(ray.origin);
        proof {
            lemma_dot_raw_bound(diff@, self.normal@, 2 * WORLD_MAX as int, WORLD_MAX as int);
        }
        let num = diff.dot_raw(self.normal);
        proof {
            lemma_mul_le(SCALE as int, num as int, SCALE as int, 0x600_0000_0000_0000_0000_0000);
            lemma_mul_le(SCALE as int, -(num as int), SCALE as int, 0x600_0000_0000_0000_0000_0000);
        }
        let t = if denom < 0 {
            div_e(SCALE * (-num), -denom)
        } else {
            div_e(SCALE * num, denom)
        };
        if t > 0 {
            Some(t)
        } else {
            None
        }
    }
}

impl Object {
    /// The smallest positive hit distance of `ray` against this object.
    pub fn hit(&self, ray: &Ray) -> (r: Option<i128>)
        requires
            self.wf(),
            ray.wf(),
        ensures
            opt_matches(r, self.hit_spec(ray.origin@, ray.direction@)),
    {
        match self {
            Object::Sphere(s) => s.hit(ray),
            Object::Plane(p) => p.hit(ray),
        }
    }

    /// The object's intrinsic color.
    pub fn color(&self) -> (c: Color)
        ensures
            c == self.color_spec(),
    {
        match self {
            Object::Sphere(s) => s.color,
            Object::Plane(p) => p.color,
        }
    }
}

/// The nearest hit over an ordered scene: the object with the smallest
/// positive hit distance wins; on an exact tie the earlier object wins.
pub open spec fn nearest_hit_spec(objs: Seq<Object>, o: V3, d: V3) -> Option<(int, Color)>
    decreases objs.len(),
{
    if objs.len() == 0 {
        None
    } else {
        let prev = nearest_hit_spec(objs.drop_last(), o, d);
        match objs.last().hit_spec(o, d) {
            Option::None => prev,
            Option::Some(t) => match prev {
                Option::None => Some((t, objs.last().color_spec())),
                Option::Some(pv) => if t < pv.0 {
                    Some((t, objs.last().color_spec()))
                } else {
                    prev
                },
            },
        }
    }
}

/// The color a ray yields: the nearest hit object's color, or the background.
pub open spec fn ray_color_spec(objs: Seq<Object>, o: V3, d: V3) -> Color {
    match nearest_hit_spec(objs, o, d) {
        Option::None => background(),
        Option::Some(tc) => tc.1,
    }
}

/// The executable nearest-hit result agrees with the specification-level one.
pub open spec fn hit_pair_matches(r: Option<(i128, Color)>, s: Option<(int, Color)>) -> bool {
    match r {
        Option::None => s is None,
        Option::Some(tc) => s == Option::Some((tc.0 as int, tc.1)),
    }
}

/// The nearest hit of `ray` over the scene, walking the objects in order and
/// keeping the first of the closest.
pub fn scene_hit(objects: &Vec<Object>, ray: &Ray) -> (r: Option<(i128, Color)>)
    requires
        ray.wf(),
        forall|i: int| 0 <= i < objects@.len() ==> (#[trigger] objects@[i]).wf(),
    ensures
        hit_pair_matches(r, nearest_hit_spec(objects@, ray.origin@, ray.direction@)),
{
    let ghost o = ray.origin@;
    let ghost dir = ray.direction@;
    let mut best: Option<(i128, Color)> = None;
    let mut i: usize = 0;
    proof {
        assert(objects@.take(0) =~= Seq::<Object>::empty());
    }
    while i < objects.len()
        invariant
            0 <= i <= objects@.len(),
            ray.wf(),
            o == ray.origin@,
            dir == ray.direction@,
            forall|j: int| 0 <= j < objects@.len() ==> (#[trigger] objects@[j]).wf(),
            hit_pair_matches(best, nearest_hit_spec(objects@.take(i as int), o, dir)),
        decreases objects@.len() - i,
    {
        let obj = objects[i];
        let hit = obj.hit(ray);
        match hit {
            Option::Some(t) => {
                match best {
                    Option::Some(bt) => {
                        if t < bt.0 {
                            best = Some((t, obj.color()));
                        }
                    },
                    Option::None => {
                        best = Some((t, obj.color()));
                    },
                }
            },
            Option::None => {},
        }
        proof {
            assert(objects@.take(i + 1).drop_last() =~= objects@.take(i as int));
            assert(objects@.take(i + 1).last() == objects@[i as int]);
        }
        i = i + 1;
    }
    proof {
        assert(objects@.take(objects@.len() as int) =~= objects@);
    }
    best
}

} // verus!
