//! Scene-level laws of the renderer, proved from the specifications that the
//! executable functions are verified against.

use vstd::prelude::*;

use crate::camera::Camera;
use crate::camera::pixel_color_spec;
use crate::camera::pixel_ok;
use crate::camera::render_ok;
use crate::fx::SCALE;
use crate::fx::is_sqrt_floor;
use crate::fx::lemma_sqrt_floor;
use crate::fx::lemma_sqrt_floor_unique;
use crate::fx::sqrt_floor;
use crate::object::Color;
use crate::object::Object;
use crate::object::Sphere;
use crate::object::background;
use crate::object::nearest_hit_spec;
use crate::object::ray_color_spec;
use crate::object::sphere_a_spec;
use crate::object::sphere_b_spec;
use crate::object::sphere_disc_spec;
use crate::object::sphere_hit_spec;
use crate::vector::V3;

verus! {

/// With no objects in the scene, every pixel gets the background color.
pub proof fn lemma_empty_scene_background(cam: Camera, w: int, h: int, px: int, py: int)
    ensures
        pixel_color_spec(cam, Seq::<Object>::empty(), w, h, px, py) == background(),
{
    assert(Seq::<Object>::empty().len() == 0);
}

/// Nearest hit wins: of two objects hit by the same ray, the rendered color
/// is that of the strictly smaller positive hit distance, and on an exact tie
/// the object added first wins.
pub proof fn lemma_nearest_hit_order(o1: Object, o2: Object, o: V3, d: V3, t1: int, t2: int)
    requires
        o1.hit_spec(o, d) == Some(t1),
        o2.hit_spec(o, d) == Some(t2),
    ensures
        t1 <= t2 ==> ray_color_spec(seq![o1, o2], o, d) == o1.color_spec(),
        t2 < t1 ==> ray_color_spec(seq![o1, o2], o, d) == o2.color_spec(),
{
    let s = seq![o1, o2];
    assert(seq![o1].drop_last() =~= Seq::<Object>::empty());
    assert(nearest_hit_spec(Seq::<Object>::empty(), o, d) is None);
    assert(seq![o1].last() == o1);
    assert(nearest_hit_spec(seq![o1], o, d) == Some((t1, o1.color_spec())));
    assert(s.drop_last() =~= seq![o1]);
    assert(s.last() == o2);
}

/// Every hit in the scene is at least as far as the nearest-hit result.
pub open spec fn nearest_lower_bound(objs: Seq<Object>, o: V3, d: V3, t: int) -> bool {
    forall|j: int|
        0 <= j < objs.len() ==> match #[trigger] objs[j].hit_spec(o, d) {
            Option::Some(tj) => tj >= t,
            Option::None => true,
        }
}

/// Object `i` realizes the nearest-hit result `n`, and every earlier object
/// either misses or hits strictly farther (so the first of the closest wins).
pub open spec fn nearest_witness_at(objs: Seq<Object>, o: V3, d: V3, n: (int, Color), i: int) -> bool {
    &&& 0 <= i < objs.len()
    &&& objs[i].hit_spec(o, d) == Option::Some(n.0)
    &&& objs[i].color_spec() == n.1
    &&& forall|j: int|
        0 <= j < i ==> match #[trigger] objs[j].hit_spec(o, d) {
            Option::Some(tj) => tj > n.0,
            Option::None => true,
        }
}

/// The nearest-hit rule, over any scene: a `None` result means every object
/// misses; a `Some` result is realized by the first object achieving the
/// smallest positive hit distance, and no object hits closer.
pub proof fn lemma_nearest_hit_characterized(objs: Seq<Object>, o: V3, d: V3)
    ensures
        match nearest_hit_spec(objs, o, d) {
            Option::None => forall|j: int|
                0 <= j < objs.len() ==> (#[trigger] objs[j].hit_spec(o, d)) is None,
            Option::Some(n) => nearest_lower_bound(objs, o, d, n.0) && exists|i: int|
                nearest_witness_at(objs, o, d, n, i),
        },
    decreases objs.len(),
{
    if objs.len() == 0 {
    } else {
        let prevs = objs.drop_last();
        lemma_nearest_hit_characterized(prevs, o, d);
        let last = objs.last();
        assert(last == objs[objs.len() - 1]);
        assert(forall|j: int| 0 <= j < prevs.len() ==> prevs[j] == objs[j]);
        let lh = last.hit_spec(o, d);
        let pn = nearest_hit_spec(prevs, o, d);
        match lh {
            Option::None => {
                match pn {
                    Option::None => {
                    },
                    Option::Some(p) => {
                        let wi = choose|i: int| nearest_witness_at(prevs, o, d, p, i);
                        assert(nearest_witness_at(objs, o, d, p, wi));
                    },
                }
            },
            Option::Some(t) => {
                match pn {
                    Option::None => {
                        let n = (t, last.color_spec());
                        assert(nearest_witness_at(objs, o, d, n, objs.len() - 1));
                    },
                    Option::Some(p) => {
                        if t < p.0 {
                            let n = (t, last.color_spec());
                            assert(nearest_witness_at(objs, o, d, n, objs.len() - 1));
                        } else {
                            let wi = choose|i: int| nearest_witness_at(prevs, o, d, p, i);
                            assert(nearest_witness_at(objs, o, d, p, wi));
                        }
                    },
                }
            },
        }
    }
}

/// Rendering is a pure function of the camera, the scene and the image size:
/// any two buffers that satisfy the rendering contract are byte-identical.
pub proof fn lemma_render_deterministic(
    cam: Camera,
    objs: Seq<Object>,
    w: int,
    h: int,
    b1: Seq<u8>,
    b2: Seq<u8>,
)
    requires
        0 <= w,
        0 <= h,
        render_ok(cam, objs, w, h, b1),
        render_ok(cam, objs, w, h, b2),
    ensures
        b1 == b2,
{
    if w == 0 || h == 0 {
        assert(h * w == 0) by (nonlinear_arith)
            requires
                w == 0 || h == 0,
        ;
        assert(b1 =~= b2);
    } else {
        assert forall|i: int| 0 <= i < b1.len() implies b1[i] == b2[i] by {
            vstd::arithmetic::div_mod::lemma_fundamental_div_mod(i, 3);
            vstd::arithmetic::div_mod::lemma_mod_division_less_than_divisor(i, 3);
            vstd::arithmetic::div_mod::lemma_div_pos_is_pos(i, 3);
            let pi = i / 3;
            let k = i % 3;
            vstd::arithmetic::div_mod::lemma_fundamental_div_mod(pi, w);
            vstd::arithmetic::div_mod::lemma_mod_division_less_than_divisor(pi, w);
            vstd::arithmetic::div_mod::lemma_div_pos_is_pos(pi, w);
            let pyy = pi / w;
            let pxx = pi % w;
            assert(pi < h * w);
            assert(pyy < h) by (nonlinear_arith)
                requires
                    pi < h * w,
                    pi == w * pyy + pxx,
                    0 <= pxx,
                    0 <= pyy,
                    0 < w,
            ;
            assert(w * pyy == pyy * w) by (nonlinear_arith);
            assert(pixel_ok(cam, objs, w, h, pxx, pyy, b1));
            assert(pixel_ok(cam, objs, w, h, pxx, pyy, b2));
        };
        assert(b1 =~= b2);
    }
}

/// Tangency is consistent: a ray whose discriminant is exactly zero counts
/// as a hit precisely when its single root lies in front of the origin, and
/// never flips between hit and miss.
pub proof fn lemma_tangent_consistent(s: Sphere, o: V3, d: V3)
    requires
        sphere_a_spec(d) != 0,
        sphere_disc_spec(s, o, d) == 0,
    ensures
        ({
            let t = ((SCALE as int) * (-sphere_b_spec(s, o, d) - 0)) / (2 * sphere_a_spec(d));
            sphere_hit_spec(s, o, d) == if t > 0 {
                Some(t)
            } else {
                None::<int>
            }
        }),
{
    assert((0 + 1) * (0 + 1) == 1) by (nonlinear_arith);
    assert(is_sqrt_floor(0, 0));
    lemma_sqrt_floor(0);
    lemma_sqrt_floor_unique(0, sqrt_floor(0), 0);
}

} // verus!
