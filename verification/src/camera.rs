//! The camera: per-pixel ray generation and the top-level render loop.
//!
//! The camera holds an eye position, a view-plane basis (`up` and `right`,
//! each pre-scaled to the full extent of the view plane along its axis) and a
//! fixed-point focal length. The forward direction is not stored: it is the
//! normalized cross product `right x up`. Rays leave the eye through the view
//! plane; pixel centers are mapped into `[-1, 1]` with `u` growing to the
//! right and `v` growing upward, so row 0 of the buffer is the top of the
//! image, rows are laid out top to bottom, row-major, three bytes per pixel.

use vstd::prelude::*;

use crate::fx::SCALE;
use crate::fx::div_e;
use crate::fx::lemma_div_le;
use crate::object::Color;
use crate::object::Object;
use crate::object::Ray;
use crate::object::WORLD_MAX;
use crate::object::ray_color_spec;
use crate::object::scene_hit;
use crate::vector::V3;
use crate::vector::Vector3;
use crate::vector::lemma_crossed_bound;
use crate::vector::lemma_scaled_bound;

verus! {

/// Bound on the camera's basis vectors, comfortably inside what the
/// intersection arithmetic admits.
pub const CAM_MAX: i128 = 0x1_0000_0000;

/// A camera: eye position, view-plane basis, and focal length.
#[derive(Clone, Copy, Debug, PartialEq, Eq, Structural)]
pub struct Camera {
    pub position: Vector3,
    pub up: Vector3,
    pub right: Vector3,
    pub focal_length: i128,
}

impl Camera {
    /// The camera's coordinates are small enough for the intersection
    /// arithmetic.
    pub open spec fn wf(self) -> bool {
        &&& self.position@.bounded(WORLD_MAX as int)
        &&& self.up@.bounded(CAM_MAX as int)
        &&& self.right@.bounded(CAM_MAX as int)
        &&& 0 <= self.focal_length <= WORLD_MAX
    }

    /// A camera from its parts.
    pub fn new(position: Vector3, up: Vector3, right: Vector3, focal_length: i128) -> (c: Camera)
        requires
            position@.bounded(WORLD_MAX as int),
            up@.bounded(CAM_MAX as int),
            right@.bounded(CAM_MAX as int),
            0 <= focal_length <= WORLD_MAX,
        ensures
            c == (Camera { position, up, right, focal_length }),
            c.wf(),
    {
        Camera { position, up, right, focal_length }
    }
}

/// The horizontal screen coordinate of pixel column `px`, in fixed point:
/// `(px + 0.5) / w * 2 - 1`, so pixel centers span `(-1, 1)` left to right.
pub open spec fn u_spec(w: int, px: int) -> int {
    ((SCALE as int) * (2 * px + 1 - w)) / w
}

/// The vertical screen coordinate of pixel row `py`, in fixed point:
/// `1 - (py + 0.5) / h * 2`, so pixel centers span `(-1, 1)` top to bottom.
pub open spec fn v_spec(h: int, py: int) -> int {
    (SCALE as int) - ((SCALE as int) * (2 * py + 1)) / h
}

/// The camera's forward axis: the normalized cross product `right x up`.
pub open spec fn forward_spec(cam: Camera) -> V3 {
    cam.right@.crossed(cam.up@).normalized()
}

/// The direction of the ray through pixel `(px, py)`: from the eye to the
/// view-plane point `forward * focal_length + right * (u / 2) + up * (v / 2)`,
/// normalized.
pub open spec fn pixel_dir_spec(cam: Camera, w: int, h: int, px: int, py: int) -> V3 {
    forward_spec(cam).scaled(cam.focal_length as int).plus(
        cam.right@.scaled(u_spec(w, px) / 2),
    ).plus(cam.up@.scaled(v_spec(h, py) / 2)).normalized()
}

/// The color of pixel `(px, py)`: what the nearest object hit by its ray
/// yields, or the background color.
pub open spec fn pixel_color_spec(cam: Camera, objs: Seq<Object>, w: int, h: int, px: int, py: int) -> Color {
    ray_color_spec(objs, cam.position@, pixel_dir_spec(cam, w, h, px, py))
}

/// The first byte of pixel `(px, py)` in a row-major, top-to-bottom, 3-byte
/// RGB buffer of width `w`.
pub open spec fn pix_base(w: int, px: int, py: int) -> int {
    3 * (py * w + px)
}

/// The three bytes of pixel `(px, py)` hold exactly its specified color.
pub open spec fn pixel_ok(cam: Camera, objs: Seq<Object>, w: int, h: int, px: int, py: int, buf: Seq<u8>) -> bool {
    let base = pix_base(w, px, py);
    &&& 0 <= base
    &&& base + 2 < buf.len()
    &&& buf[base] == pixel_color_spec(cam, objs, w, h, px, py).r
    &&& buf[base + 1] == pixel_color_spec(cam, objs, w, h, px, py).g
    &&& buf[base + 2] == pixel_color_spec(cam, objs, w, h, px, py).b
}

/// The full contract of a rendered buffer: the exact length, and every
/// pixel's bytes.
pub open spec fn render_ok(cam: Camera, objs: Seq<Object>, w: int, h: int, buf: Seq<u8>) -> bool {
    &&& buf.len() == 3 * (h * w)
    &&& forall|px: int, py: int|
        0 <= px < w && 0 <= py < h ==> #[trigger] pixel_ok(cam, objs, w, h, px, py, buf)
}

/// Pixels that come earlier in row-major order occupy earlier bytes.
proof fn lemma_pix_lt(w: int, qx: int, qy: int, px: int, py: int)
    requires
        0 <= qx < w,
        0 <= qy,
        0 <= px,
        0 <= py,
        qy < py || (qy == py && qx < px),
    ensures
        0 <= pix_base(w, qx, qy),
        pix_base(w, qx, qy) + 2 < pix_base(w, px, py),
{
    assert(0 <= 3 * (qy * w + qx) && 3 * (qy * w + qx) + 2 < 3 * (py * w + px))
        by (nonlinear_arith)
        requires
            0 <= qx < w,
            0 <= qy,
            0 <= px,
            0 <= py,
            qy < py || (qy == py && qx < px),
    ;
}

impl Camera {
    /// The ray from the eye through the center of pixel `(px, py)`.
    fn pixel_ray(&self, width: u32, height: u32, px: u32, py: u32) -> (r: Ray)
        requires
            self.wf(),
            px < width,
            py < height,
        ensures
            r.origin == self.position,
            r.direction@ == pixel_dir_spec(
                *self,
                width as int,
                height as int,
                px as int,
                py as int,
            ),
            r.wf(),
    {
        let w = width as i128;
        let h = height as i128;
        let un = SCALE * (2 * (px as i128) + 1 - w);
        let u = div_e(un, w);
        proof {
            lemma_div_le(un as int, w as int, SCALE as int);
        }
        let hu = div_e(u, 2);
        proof {
            lemma_div_le(u as int, 2, 32768);
        }
        let vn = SCALE * (2 * (py as i128) + 1);
        let vq = div_e(vn, h);
        proof {
            lemma_div_le(vn as int, h as int, 131072);
            vstd::arithmetic::div_mod::lemma_div_pos_is_pos(vn as int, h as int);
        }
        let v = SCALE - vq;
        let hv = div_e(v, 2);
        proof {
            lemma_div_le(v as int, 2, 65536);
        }
        proof {
            lemma_crossed_bound(
                self.right@,
                self.up@,
                CAM_MAX as int,
                CAM_MAX as int,
                0x2_0000_0000_0000,
            );
        }
        let fwd = self.right.cross(self.up).normalize();
        let fwd_fl = fwd.scale(self.focal_length);
        proof {
            lemma_scaled_bound(
                fwd@,
                self.focal_length as int,
                SCALE as int,
                WORLD_MAX as int,
                WORLD_MAX as int,
            );
        }
        let ru = self.right.scale(hu);
        proof {
            lemma_scaled_bound(self.right@, hu as int, CAM_MAX as int, 32768, 0x8000_0000);
        }
        let uv = self.up.scale(hv);
        proof {
            lemma_scaled_bound(self.up@, hv as int, CAM_MAX as int, 65536, 0x1_0000_0000);
        }
        let dir = fwd_fl.add(ru).add(uv).normalize();
        Ray { origin: self.position, direction: dir }
    }

    /// Render the scene into a flat RGB buffer, three bytes per pixel,
    /// row-major, top row first. Every pixel holds the color of the nearest
    /// object its ray hits, ties going to the object added first, and the
    /// background color where nothing is hit.
    pub fn render_to(&self, width: u32, height: u32, objects: &Vec<Object>) -> (buf: Vec<u8>)
        requires
            self.wf(),
            forall|i: int| 0 <= i < objects@.len() ==> (#[trigger] objects@[i]).wf(),
        ensures
            render_ok(*self, objects@, width as int, height as int, buf@),
            buf@.len() == 3 * (height as int * width as int),
    {
        let ghost cam = *self;
        let ghost objs = objects@;
        let ghost w = width as int;
        let ghost h = height as int;
        let mut buf: Vec<u8> = Vec::new();
        let mut py: u32 = 0;
        while py < height
            invariant
                py <= height,
                self.wf(),
                cam == *self,
                objs == objects@,
                w == width as int,
                h == height as int,
                forall|i: int| 0 <= i < objects@.len() ==> (#[trigger] objects@[i]).wf(),
                buf@.len() == pix_base(w, 0, py as int),
                forall|qx: int, qy: int|
                    0 <= qx < w && 0 <= qy < py as int ==> #[trigger] pixel_ok(
                        cam,
                        objs,
                        w,
                        h,
                        qx,
                        qy,
                        buf@,
                    ),
            decreases height - py,
        {
            let mut px: u32 = 0;
            while px < width
                invariant
                    px <= width,
                    py < height,
                    self.wf(),
                    cam == *self,
                    objs == objects@,
                    w == width as int,
                    h == height as int,
                    forall|i: int| 0 <= i < objects@.len() ==> (#[trigger] objects@[i]).wf(),
                    buf@.len() == pix_base(w, px as int, py as int),
                    forall|qx: int, qy: int|
                        0 <= qx < w && 0 <= qy < py as int ==> #[trigger] pixel_ok(
                            cam,
                            objs,
                            w,
                            h,
                            qx,
                            qy,
                            buf@,
                        ),
                    forall|qx: int|
                        0 <= qx < px as int ==> #[trigger] pixel_ok(
                            cam,
                            objs,
                            w,
                            h,
                            qx,
                            py as int,
                            buf@,
                        ),
                decreases width - px,
            {
                let ray = self.pixel_ray(width, height, px, py);
                let hit = scene_hit(objects, &ray);
                let c = match hit {
                    Option::Some(tc) => tc.1,
                    Option::None => Color { r: 0, g: 0, b: 0 },
                };
                proof {
                    assert(c == pixel_color_spec(cam, objs, w, h, px as int, py as int));
                }
                let ghost buf0 = buf@;
                buf.push(c.r);
                buf.push(c.g);
                buf.push(c.b);
                proof {
                    assert(pixel_ok(cam, objs, w, h, px as int, py as int, buf@));
                    assert forall|qx: int, qy: int|
                        0 <= qx < w && 0 <= qy < py as int implies #[trigger] pixel_ok(
                        cam,
                        objs,
                        w,
                        h,
                        qx,
                        qy,
                        buf@,
                    ) by {
                        lemma_pix_lt(w, qx, qy, px as int, py as int);
                        assert(pixel_ok(cam, objs, w, h, qx, qy, buf0));
                    };
                    assert forall|qx: int| 0 <= qx < px as int implies #[trigger] pixel_ok(
                        cam,
                        objs,
                        w,
                        h,
                        qx,
                        py as int,
                        buf@,
                    ) by {
                        lemma_pix_lt(w, qx, py as int, px as int, py as int);
                        assert(pixel_ok(cam, objs, w, h, qx, py as int, buf0));
                    };
                }
                px = px + 1;
            }
            proof {
                assert(((py as int) + 1) * w == (py as int) * w + w) by (nonlinear_arith);
                assert forall|qx: int, qy: int|
                    0 <= qx < w && 0 <= qy < (py as int) + 1 implies #[trigger] pixel_ok(
                    cam,
                    objs,
                    w,
                    h,
                    qx,
                    qy,
                    buf@,
                ) by {
                    if qy < py as int {
                        assert(pixel_ok(cam, objs, w, h, qx, qy, buf@));
                    } else {
                        assert(pixel_ok(cam, objs, w, h, qx, py as int, buf@));
                    }
                };
            }
            py = py + 1;
        }
        proof {
            assert(buf@.len() == 3 * (h * w));
        }
        buf
    }
}

} // verus!
