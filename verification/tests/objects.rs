use raycast::fx::SCALE;
use raycast::object::Color;
use raycast::object::Object;
use raycast::object::Plane;
use raycast::object::Ray;
use raycast::object::Sphere;
use raycast::object::scene_hit;
use raycast::vector::Vector3;

fn v(x: i128, y: i128, z: i128) -> Vector3 {
    Vector3 { x, y, z }
}

const RED: Color = Color { r: 255, g: 0, b: 0 };
const BLUE: Color = Color { r: 0, g: 0, b: 255 };

fn unit_sphere_at(x: i128, y: i128, z: i128, color: Color) -> Sphere {
    Sphere { center: v(x, y, z), radius: SCALE, color }
}

#[test]
fn sphere_on_axis_hit_distance() {
    // Unit sphere at the origin, ray from (0,0,-5) along +z: first surface at
    // distance 4.
    let s = unit_sphere_at(0, 0, 0, RED);
    let ray = Ray { origin: v(0, 0, -5 * SCALE), direction: v(0, 0, SCALE) };
    assert_eq!(s.hit(&ray), Some(4 * SCALE));
}

#[test]
fn sphere_behind_origin_is_missed() {
    let s = unit_sphere_at(0, 0, -10 * SCALE, RED);
    let ray = Ray { origin: v(0, 0, -5 * SCALE), direction: v(0, 0, SCALE) };
    assert_eq!(s.hit(&ray), None);
}

#[test]
fn sphere_off_axis_is_missed() {
    let s = unit_sphere_at(10 * SCALE, 0, 0, RED);
    let ray = Ray { origin: v(0, 0, -5 * SCALE), direction: v(0, 0, SCALE) };
    assert_eq!(s.hit(&ray), None);
}

#[test]
fn ray_from_inside_sphere_hits_far_surface() {
    // From the center of a unit sphere, the surface is one unit ahead.
    let s = unit_sphere_at(0, 0, 0, RED);
    let ray = Ray { origin: v(0, 0, 0), direction: v(0, 0, SCALE) };
    assert_eq!(s.hit(&ray), Some(SCALE));
}

#[test]
fn tangent_ray_counts_as_hit() {
    // Sphere one unit to the side of the ray: the discriminant is exactly
    // zero and the grazing point, 5 units ahead, counts as a hit.
    let s = unit_sphere_at(SCALE, 0, 5 * SCALE, RED);
    let ray = Ray { origin: v(0, 0, 0), direction: v(0, 0, SCALE) };
    assert_eq!(s.hit(&ray), Some(5 * SCALE));
}

#[test]
fn tangent_ray_behind_origin_is_missed() {
    let s = unit_sphere_at(SCALE, 0, -5 * SCALE, RED);
    let ray = Ray { origin: v(0, 0, 0), direction: v(0, 0, SCALE) };
    assert_eq!(s.hit(&ray), None);
}

#[test]
fn degenerate_direction_hits_nothing() {
    let s = unit_sphere_at(0, 0, 0, RED);
    let ray = Ray { origin: v(0, 0, -5 * SCALE), direction: v(0, 0, 0) };
    assert_eq!(s.hit(&ray), None);
}

#[test]
fn plane_straight_ahead() {
    let p = Plane { point: v(0, 0, 10 * SCALE), normal: v(0, 0, SCALE), color: BLUE };
    let ray = Ray { origin: v(0, 0, 0), direction: v(0, 0, SCALE) };
    assert_eq!(p.hit(&ray), Some(10 * SCALE));
}

#[test]
fn plane_with_flipped_normal() {
    let p = Plane { point: v(0, 0, 10 * SCALE), normal: v(0, 0, -SCALE), color: BLUE };
    let ray = Ray { origin: v(0, 0, 0), direction: v(0, 0, SCALE) };
    assert_eq!(p.hit(&ray), Some(10 * SCALE));
}

#[test]
fn parallel_ray_misses_plane() {
    let p = Plane { point: v(0, 0, 10 * SCALE), normal: v(0, 0, SCALE), color: BLUE };
    let ray = Ray { origin: v(0, 0, 0), direction: v(SCALE, 0, 0) };
    assert_eq!(p.hit(&ray), None);
}

#[test]
fn plane_behind_origin_is_missed() {
    let p = Plane { point: v(0, 0, -10 * SCALE), normal: v(0, 0, SCALE), color: BLUE };
    let ray = Ray { origin: v(0, 0, 0), direction: v(0, 0, SCALE) };
    assert_eq!(p.hit(&ray), None);
}

#[test]
fn nearest_object_wins() {
    // The blue sphere's surface is 1 unit away, the red one's 4 units.
    let far = Object::Sphere(unit_sphere_at(0, 0, 0, RED));
    let near = Object::Sphere(unit_sphere_at(0, 0, -3 * SCALE, BLUE));
    let ray = Ray { origin: v(0, 0, -5 * SCALE), direction: v(0, 0, SCALE) };
    let objects = vec![far, near];
    let hit = scene_hit(&objects, &ray);
    assert_eq!(hit, Some((SCALE, BLUE)));
}

#[test]
fn nearest_object_wins_either_order() {
    let far = Object::Sphere(unit_sphere_at(0, 0, 0, RED));
    let near = Object::Sphere(unit_sphere_at(0, 0, -3 * SCALE, BLUE));
    let ray = Ray { origin: v(0, 0, -5 * SCALE), direction: v(0, 0, SCALE) };
    let objects = vec![near, far];
    let hit = scene_hit(&objects, &ray);
    assert_eq!(hit, Some((SCALE, BLUE)));
}

#[test]
fn exact_tie_goes_to_first_added() {
    let first = Object::Sphere(unit_sphere_at(0, 0, 0, RED));
    let second = Object::Sphere(unit_sphere_at(0, 0, 0, BLUE));
    let ray = Ray { origin: v(0, 0, -5 * SCALE), direction: v(0, 0, SCALE) };
    let objects = vec![first, second];
    let hit = scene_hit(&objects, &ray);
    assert_eq!(hit, Some((4 * SCALE, RED)));
}

#[test]
fn empty_scene_hits_nothing() {
    let objects: Vec<Object> = vec![];
    let ray = Ray { origin: v(0, 0, -5 * SCALE), direction: v(0, 0, SCALE) };
    assert_eq!(scene_hit(&objects, &ray), None);
}
