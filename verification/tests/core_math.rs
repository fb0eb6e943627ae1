//! Vector arithmetic, clamping, intervals and pixel encoding.

use pathtracer::color::write_color;
use pathtracer::fixed::{clamp, fdiv, fmul, fsqrt};
use pathtracer::interval::Interval;
use pathtracer::vec3::Vec3;

const FULL: i64 = 65536;

fn almost_equal(v1: i64, v2: i64) -> bool {
    (v1 - v2).abs() < 4
}

#[test]
fn must_set_coordinates() {
    let expected_x = 39125;
    let expected_y = 96895;
    let expected_z = 1039204;

    let vec = Vec3(expected_x, expected_y, expected_z);

    assert_eq!(expected_x, vec.x());
    assert_eq!(expected_y, vec.y());
    assert_eq!(expected_z, vec.z());
}

#[test]
fn must_have_length_zero() {
    let expected = 0;

    assert!(almost_equal(expected, Vec3::zero().length()));
}

#[test]
fn must_have_length_one() {
    let expected = FULL;
    let vec = Vec3(FULL, 0, 0);

    assert!(almost_equal(expected, vec.length()));
}

#[test]
fn must_have_sq_length_zero() {
    let expected = 0;

    assert!(almost_equal(expected, Vec3::zero().sq_length()));
}

#[test]
fn must_have_sq_length_one() {
    let expected = FULL;
    let vec = Vec3(FULL, 0, 0);

    assert!(almost_equal(expected, vec.sq_length()));
}

#[test]
fn must_have_normalized_length_one() {
    let expected = FULL;
    let vec = Vec3(FULL, 5 * FULL, 2 * FULL);

    // The fixed-point grid is coarse, so the unit length is met within a
    // few steps of rounding slack.
    let len = vec.normalized().length();
    assert!((len - expected).abs() < 16);

    let mut mut_vec = vec;
    mut_vec.normalize();

    assert!((mut_vec.length() - expected).abs() < 16);
}

#[test]
fn must_be_equal_sum() {
    let expected = Vec3(FULL, 5 * FULL + FULL / 4, 2 * FULL);

    let vec1 = Vec3(0, 2 * FULL, FULL + FULL / 2);
    let vec2 = Vec3(FULL, 3 * FULL + FULL / 4, FULL / 2);

    assert_eq!(expected, vec1.plus(vec2));
}

#[test]
fn must_be_equal_neg() {
    let expected = Vec3(FULL / 2, -FULL + 6554, 0);

    let vec = Vec3(-FULL / 2, FULL - 6554, 0);

    assert_eq!(expected, vec.negate());
}

#[test]
fn must_return_coordinate() {
    let expected_0 = FULL;
    let expected_1 = 5 * FULL + 31457;
    let expected_2 = -31457;

    let vec = Vec3(expected_0, expected_1, expected_2);

    assert_eq!(expected_0, vec.0);
    assert_eq!(expected_1, vec.1);
    assert_eq!(expected_2, vec.2);
}

#[test]
fn must_clamp_to_max() {
    let min = 29491;
    let max = 98873;

    let val = 98874;

    let expected = max;

    assert_eq!(expected, clamp(val, min, max));
}

#[test]
fn must_clamp_to_min() {
    let min = -942080;
    let max = 4450304;

    let val = -1015546;

    let expected = min;

    assert_eq!(expected, clamp(val, min, max));
}

#[test]
fn must_not_clamp() {
    let min = -562099;
    let max = 491192;

    let val = 360175;

    let expected = val;

    assert_eq!(expected, clamp(val, min, max));
}

#[test]
fn fixed_products_and_quotients_are_exact() {
    assert_eq!(FULL, fmul(FULL, FULL));
    assert_eq!(FULL / 2, fmul(FULL, FULL / 2));
    assert_eq!(FULL / 4, fmul(FULL / 2, FULL / 2));
    assert_eq!(2 * FULL, fdiv(FULL, FULL / 2));
    assert_eq!(FULL, fsqrt(FULL));
    assert_eq!(FULL / 2, fsqrt(FULL / 4));
}

#[test]
fn interval_keeps_its_endpoints() {
    let interval = Interval::new(0, FULL);

    assert_eq!(0, interval.start());
    assert_eq!(FULL, interval.end());
}

#[test]
fn write_color_encodes_full_white() {
    let mut out: Vec<u8> = Vec::new();
    let color = Vec3(FULL, FULL, FULL);

    write_color(&mut out, &color, 1);

    assert_eq!(b"255 255 255\n".to_vec(), out);
}

#[test]
fn write_color_encodes_black() {
    let mut out: Vec<u8> = Vec::new();
    let color = Vec3(0, 0, 0);

    write_color(&mut out, &color, 1);

    assert_eq!(b"0 0 0\n".to_vec(), out);
}

#[test]
fn write_color_applies_gamma_and_averaging() {
    let mut out: Vec<u8> = Vec::new();
    // A quarter intensity accumulated over one sample: the square root
    // gamma lifts it to one half, and the floor of 255.999 times one half
    // is 127.
    let color = Vec3(FULL / 4, FULL / 4, FULL / 4);

    write_color(&mut out, &color, 1);

    assert_eq!(b"127 127 127\n".to_vec(), out);

    let mut out2: Vec<u8> = Vec::new();
    // The same intensity accumulated as two samples of half each.
    let color2 = Vec3(FULL / 2, FULL / 2, FULL / 2);

    write_color(&mut out2, &color2, 2);

    assert_eq!(b"127 127 127\n".to_vec(), out2);
}
