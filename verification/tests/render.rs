use raycast::fx::SCALE;
use raycast::object::Color;
use raycast::object::Object;
use raycast::object::Sphere;
use raycast::vector::Vector3;
use raycast::world::World;
use raycast::world::to_rgba;

fn v(x: i128, y: i128, z: i128) -> Vector3 {
    Vector3 { x, y, z }
}

const RED: Color = Color { r: 255, g: 0, b: 0 };
const GREEN: Color = Color { r: 0, g: 255, b: 0 };

fn red_unit_sphere() -> Object {
    Object::Sphere(Sphere { center: v(0, 0, 0), radius: SCALE, color: RED })
}

/// The standard scene: camera at (0,0,-5) looking at a red unit sphere at
/// the origin.
fn standard_world(width: usize, height: usize) -> World {
    let mut world = World::new(String::from("scene"), width, height);
    world.camera(v(0, 0, -5 * SCALE), v(0, SCALE, 0), v(SCALE, 0, 0));
    world.add_object(red_unit_sphere());
    world
}

fn pixel(buf: &[u8], width: usize, px: usize, py: usize) -> (u8, u8, u8) {
    let base = 3 * (py * width + px);
    (buf[base], buf[base + 1], buf[base + 2])
}

#[test]
fn empty_scene_is_all_background() {
    let mut world = World::new(String::from("empty"), 4, 3);
    world.camera(v(0, 0, -5 * SCALE), v(0, SCALE, 0), v(SCALE, 0, 0));
    let buf = world.render().unwrap();
    assert_eq!(buf.len(), 4 * 3 * 3);
    assert!(buf.iter().all(|&b| b == 0));
}

#[test]
fn no_camera_renders_nothing() {
    let world = World::new(String::from("no camera"), 8, 8);
    assert!(world.render().is_none());
}

#[test]
fn buffer_shape_various_sizes() {
    for &(w, h) in &[(1usize, 1usize), (7, 5), (16, 9), (100, 100)] {
        let world = standard_world(w, h);
        let buf = world.render().unwrap();
        assert_eq!(buf.len(), w * h * 3);
    }
}

#[test]
fn center_pixel_hits_sphere_corners_do_not() {
    // Camera at (0,0,-5), up (0,1,0) and right (1,0,0) scaled to full plane
    // extents by the world, red unit sphere at the origin: the center of a
    // 100x100 image is red, the corners are background.
    let world = standard_world(100, 100);
    let buf = world.render().unwrap();
    assert_eq!(buf.len(), 30000);
    assert_eq!(pixel(&buf, 100, 50, 50), (255, 0, 0));
    assert_eq!(pixel(&buf, 100, 49, 49), (255, 0, 0));
    assert_eq!(pixel(&buf, 100, 0, 0), (0, 0, 0));
    assert_eq!(pixel(&buf, 100, 99, 0), (0, 0, 0));
    assert_eq!(pixel(&buf, 100, 0, 99), (0, 0, 0));
    assert_eq!(pixel(&buf, 100, 99, 99), (0, 0, 0));
}

#[test]
fn silhouette_edge_pixels_are_background() {
    // The sphere subtends well under half the image: pixels far from the
    // center, though not at the corners, are still background.
    let world = standard_world(100, 100);
    let buf = world.render().unwrap();
    assert_eq!(pixel(&buf, 100, 50, 5), (0, 0, 0));
    assert_eq!(pixel(&buf, 100, 5, 50), (0, 0, 0));
}

#[test]
fn overlapping_objects_nearest_color_shows() {
    // A green sphere in front of the red one, both on the axis: the image
    // center shows green.
    let mut world = World::new(String::from("overlap"), 50, 50);
    world.camera(v(0, 0, -5 * SCALE), v(0, SCALE, 0), v(SCALE, 0, 0));
    world.add_object(red_unit_sphere());
    world.add_object(Object::Sphere(Sphere {
        center: v(0, 0, -2 * SCALE),
        radius: SCALE,
        color: GREEN,
    }));
    let buf = world.render().unwrap();
    assert_eq!(pixel(&buf, 50, 25, 25), (0, 255, 0));
}

#[test]
fn exact_tie_shows_first_added_color() {
    let mut world = World::new(String::from("tie"), 50, 50);
    world.camera(v(0, 0, -5 * SCALE), v(0, SCALE, 0), v(SCALE, 0, 0));
    world.add_object(red_unit_sphere());
    world.add_object(Object::Sphere(Sphere { center: v(0, 0, 0), radius: SCALE, color: GREEN }));
    let buf = world.render().unwrap();
    assert_eq!(pixel(&buf, 50, 25, 25), (255, 0, 0));
}

#[test]
fn rendering_twice_is_byte_identical() {
    let world = standard_world(64, 48);
    let first = world.render().unwrap();
    let second = world.render().unwrap();
    assert_eq!(first, second);
}

#[test]
fn wide_aspect_ratio_keeps_center_hit() {
    let world = standard_world(200, 100);
    let buf = world.render().unwrap();
    assert_eq!(buf.len(), 200 * 100 * 3);
    assert_eq!(pixel(&buf, 200, 100, 50), (255, 0, 0));
    assert_eq!(pixel(&buf, 200, 0, 0), (0, 0, 0));
}

#[test]
fn rgba_expansion_sets_alpha() {
    let rgb: Vec<u8> = vec![1, 2, 3, 4, 5, 6];
    let rgba = to_rgba(&rgb);
    assert_eq!(rgba, vec![1, 2, 3, 255, 4, 5, 6, 255]);
}

#[test]
fn rgba_of_empty_is_empty() {
    let rgb: Vec<u8> = vec![];
    assert_eq!(to_rgba(&rgb), Vec::<u8>::new());
}

#[test]
fn rendered_buffer_expands_to_rgba() {
    let world = standard_world(10, 10);
    let buf = world.render().unwrap();
    let rgba = to_rgba(&buf);
    assert_eq!(rgba.len(), 10 * 10 * 4);
    for i in 0..100 {
        assert_eq!(rgba[4 * i + 3], 0xff);
        assert_eq!(rgba[4 * i], buf[3 * i]);
    }
}

#[test]
fn positive_y_appears_in_upper_rows() {
    // A sphere above the axis: rows are top to bottom, so it shows in rows
    // with small indices and not in the lower half.
    let mut world = World::new(String::from("up"), 100, 100);
    world.camera(v(0, 0, -5 * SCALE), v(0, SCALE, 0), v(SCALE, 0, 0));
    world.add_object(Object::Sphere(Sphere {
        center: v(0, 3 * SCALE / 2, 0),
        radius: SCALE,
        color: RED,
    }));
    let buf = world.render().unwrap();
    assert_eq!(pixel(&buf, 100, 50, 30), (255, 0, 0));
    assert_eq!(pixel(&buf, 100, 50, 10), (0, 0, 0));
    assert_eq!(pixel(&buf, 100, 50, 60), (0, 0, 0));
}

#[test]
fn positive_x_appears_in_right_columns() {
    let mut world = World::new(String::from("right"), 100, 100);
    world.camera(v(0, 0, -5 * SCALE), v(0, SCALE, 0), v(SCALE, 0, 0));
    world.add_object(Object::Sphere(Sphere {
        center: v(3 * SCALE / 2, 0, 0),
        radius: SCALE,
        color: RED,
    }));
    let buf = world.render().unwrap();
    assert_eq!(pixel(&buf, 100, 65, 50), (255, 0, 0));
    assert_eq!(pixel(&buf, 100, 35, 50), (0, 0, 0));
    assert_eq!(pixel(&buf, 100, 90, 50), (0, 0, 0));
}
