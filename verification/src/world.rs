//! The world: a named scene being assembled, and its single render step.
//!
//! A `World` collects a camera (set at most once before rendering) and an
//! ordered list of objects, then renders them into an RGB buffer. A world
//! without a camera renders to nothing; the caller is told so by the `None`
//! result rather than by a failure.

use vstd::prelude::*;

use crate::camera::CAM_MAX;
use crate::camera::Camera;
use crate::camera::render_ok;
use crate::fx::LIM;
use crate::fx::SCALE;
use crate::fx::div_e;
use crate::fx::lemma_div_le;
use crate::object::Object;
use crate::object::WORLD_MAX;
use crate::vector::Vector3;
use crate::vector::lemma_scaled_bound;

verus! {

/// The fixed-point aspect ratio `width / height` of the output image.
pub open spec fn aspect_spec(width: int, height: int) -> int {
    (width * (SCALE as int)) / height
}

/// A scene under construction: image size, an optional camera, and the
/// ordered objects.
pub struct World {
    pub name: String,
    pub width: u32,
    pub height: u32,
    pub camera: Option<Camera>,
    pub objects: Vec<Object>,
}

impl World {
    /// The camera (if set) and every object lie within the renderer's
    /// coordinate bounds.
    pub open spec fn wf(self) -> bool {
        &&& match self.camera {
            Option::Some(c) => c.wf(),
            Option::None => true,
        }
        &&& forall|i: int| 0 <= i < self.objects@.len() ==> (#[trigger] self.objects@[i]).wf()
    }

    /// An empty world of the given image size: no camera, no objects.
    pub fn new(name: String, width: usize, height: usize) -> (w: World)
        requires
            width <= u32::MAX as usize,
            height <= u32::MAX as usize,
        ensures
            w.name@ == name@,
            w.width == width as u32,
            w.height == height as u32,
            w.camera is None,
            w.objects@.len() == 0,
            w.wf(),
    {
        World {
            name,
            width: width as u32,
            height: height as u32,
            camera: None,
            objects: Vec::new(),
        }
    }

    /// Attach the camera: `up` and `right` are normalized and then scaled to
    /// the full view-plane extents (2 units vertically, 2 times the aspect
    /// ratio horizontally), with a focal length of one unit.
    pub fn camera(&mut self, position: Vector3, up: Vector3, right: Vector3)
        requires
            old(self).wf(),
            position@.bounded(WORLD_MAX as int),
            up@.bounded(LIM as int),
            right@.bounded(LIM as int),
            old(self).height >= 1,
            (old(self).width as int) * (SCALE as int) <= 0x8000_0000 * (old(self).height as int),
        ensures
            final(self).name@ == old(self).name@,
            final(self).width == old(self).width,
            final(self).height == old(self).height,
            final(self).objects@ == old(self).objects@,
            final(self).wf(),
            match final(self).camera {
                Option::Some(c) => {
                    &&& c.position == position
                    &&& c.up@ == up@.normalized().scaled(2 * (SCALE as int))
                    &&& c.right@ == right@.normalized().scaled(2 * (SCALE as int)).scaled(
                        aspect_spec(old(self).width as int, old(self).height as int),
                    )
                    &&& c.focal_length == SCALE
                },
                Option::None => false,
            },
    {
        let up_n = up.normalize();
        proof {
            lemma_scaled_bound(up_n@, 2 * (SCALE as int), SCALE as int, 131072, 131072);
        }
        let up2 = up_n.scale(2 * SCALE);
        let aspect = div_e((self.width as i128) * SCALE, self.height as i128);
        proof {
            lemma_div_le(
                (self.width as i128) as int * (SCALE as int),
                self.height as int,
                0x8000_0000,
            );
            vstd::arithmetic::div_mod::lemma_div_pos_is_pos(
                (self.width as i128) as int * (SCALE as int),
                self.height as int,
            );
        }
        let right_n = right.normalize();
        proof {
            lemma_scaled_bound(right_n@, 2 * (SCALE as int), SCALE as int, 131072, 131072);
        }
        let right2 = right_n.scale(2 * SCALE);
        proof {
            lemma_scaled_bound(right2@, aspect as int, 131072, 0x8000_0000, CAM_MAX as int);
        }
        let right3 = right2.scale(aspect);
        let cam = Camera::new(position, up2, right3, SCALE);
        self.camera = Some(cam);
    }

    /// Append an object to the scene; later objects lose exact-tie hits to
    /// earlier ones.
    pub fn add_object(&mut self, object: Object)
        requires
            old(self).wf(),
            object.wf(),
        ensures
            final(self).name@ == old(self).name@,
            final(self).width == old(self).width,
            final(self).height == old(self).height,
            final(self).camera == old(self).camera,
            final(self).objects@ == old(self).objects@.push(object),
            final(self).wf(),
    {
        self.objects.push(object);
    }

    /// Render the scene: `None` (and no image) when no camera is attached,
    /// otherwise the RGB buffer described by `render_ok`.
    pub fn render(&self) -> (r: Option<Vec<u8>>)
        requires
            self.wf(),
        ensures
            match self.camera {
                Option::None => r is None,
                Option::Some(cam) => match r {
                    Option::Some(buf) => render_ok(
                        cam,
                        self.objects@,
                        self.width as int,
                        self.height as int,
                        buf@,
                    ),
                    Option::None => false,
                },
            },
    {
        match &self.camera {
            Option::Some(cam) => Option::Some(cam.render_to(self.width, self.height, &self.objects)),
            Option::None => Option::None,
        }
    }
}

/// Pixel `i` of the RGBA buffer repeats pixel `i` of the RGB buffer and sets
/// its alpha channel to 0xff.
pub open spec fn rgba_pixel_ok(rgb: Seq<u8>, out: Seq<u8>, i: int) -> bool {
    &&& out[4 * i] == rgb[3 * i]
    &&& out[4 * i + 1] == rgb[3 * i + 1]
    &&& out[4 * i + 2] == rgb[3 * i + 2]
    &&& out[4 * i + 3] == 0xff
}

/// Expand an RGB buffer to RGBA, pixel by pixel, with every alpha 0xff: the
/// shape a display surface expects.
pub fn to_rgba(rgb: &Vec<u8>) -> (out: Vec<u8>)
    requires
        rgb@.len() % 3 == 0,
    ensures
        out@.len() == (rgb@.len() / 3) * 4,
        forall|i: int| 0 <= i < rgb@.len() as int / 3 ==> #[trigger] rgba_pixel_ok(rgb@, out@, i),
{
    proof {
        vstd::arithmetic::div_mod::lemma_fundamental_div_mod(rgb@.len() as int, 3);
    }
    let len = rgb.len();
    let n = len / 3;
    let mut out: Vec<u8> = Vec::new();
    let mut i: usize = 0;
    while i < n
        invariant
            len == rgb@.len(),
            n == rgb@.len() / 3,
            len == 3 * n,
            rgb@.len() == 3 * n,
            i <= n,
            out@.len() == 4 * i,
            forall|j: int| 0 <= j < i as int ==> #[trigger] rgba_pixel_ok(rgb@, out@, j),
        decreases n - i,
    {
        let ghost out0 = out@;
        out.push(rgb[3 * i]);
        out.push(rgb[3 * i + 1]);
        out.push(rgb[3 * i + 2]);
        out.push(0xff);
        proof {
            assert(rgba_pixel_ok(rgb@, out@, i as int));
            assert forall|j: int| 0 <= j < i as int implies #[trigger] rgba_pixel_ok(
                rgb@,
                out@,
                j,
            ) by {
                assert(rgba_pixel_ok(rgb@, out0, j));
            };
        }
        i = i + 1;
    }
    out
}

} // verus!
