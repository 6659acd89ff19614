use raycast::fx::SCALE;
use raycast::vector::Vector3;

fn v(x: i128, y: i128, z: i128) -> Vector3 {
    Vector3 { x, y, z }
}

#[test]
fn add_componentwise() {
    let r = v(1, 2, 3).add(v(10, 20, 30));
    assert_eq!(r, v(11, 22, 33));
}

#[test]
fn subtract_componentwise() {
    let r = v(10, 20, 30).subtract(v(1, 2, 3));
    assert_eq!(r, v(9, 18, 27));
}

#[test]
fn scale_by_two_units() {
    let r = v(SCALE, -SCALE, 3 * SCALE).scale(2 * SCALE);
    assert_eq!(r, v(2 * SCALE, -2 * SCALE, 6 * SCALE));
}

#[test]
fn dot_of_unit_axes_is_zero() {
    assert_eq!(v(SCALE, 0, 0).dot(v(0, SCALE, 0)), 0);
}

#[test]
fn dot_exact_value() {
    let a = v(SCALE, 2 * SCALE, 3 * SCALE);
    let b = v(4 * SCALE, 5 * SCALE, 6 * SCALE);
    // (1*4 + 2*5 + 3*6) = 32 in fixed point
    assert_eq!(a.dot(b), 32 * SCALE);
}

#[test]
fn cross_of_x_and_y_is_z() {
    let r = v(SCALE, 0, 0).cross(v(0, SCALE, 0));
    assert_eq!(r, v(0, 0, SCALE));
}

#[test]
fn cross_anticommutes() {
    let r = v(0, SCALE, 0).cross(v(SCALE, 0, 0));
    assert_eq!(r, v(0, 0, -SCALE));
}

#[test]
fn length_of_3_4_0_is_5() {
    assert_eq!(v(3 * SCALE, 4 * SCALE, 0).length(), 5 * SCALE);
}

#[test]
fn length_of_zero_is_zero() {
    assert_eq!(v(0, 0, 0).length(), 0);
}

#[test]
fn normalize_axis_vector() {
    let r = v(0, 0, 7 * SCALE).normalize();
    assert_eq!(r, v(0, 0, SCALE));
}

#[test]
fn normalize_3_4_0() {
    let r = v(3 * SCALE, 4 * SCALE, 0).normalize();
    // 0.6 and 0.8 in fixed point, rounded toward negative infinity
    assert_eq!(r, v(39321, 52428, 0));
}

#[test]
fn normalize_zero_vector_stays_zero() {
    let r = v(0, 0, 0).normalize();
    assert_eq!(r, v(0, 0, 0));
}
