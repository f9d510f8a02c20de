//! Tests of the fixed-point scalar and the decimal-literal encodings.

use platformer_core::math::{PosNum, Vec2, Rect, const_num_i32, const_num_u32};

#[test]
fn decimal_half_is_exact() {
    assert_eq!(const_num_i32(0, 5).raw, 128);
}

#[test]
fn decimal_three_quarters_is_exact() {
    assert_eq!(const_num_i32(0, 75).raw, 192);
}

#[test]
fn decimal_seven_point_125() {
    assert_eq!(const_num_u32(7, 125), 1824);
}

#[test]
fn decimal_tenth_truncates() {
    // 0.1 has no finite binary expansion: 0.1 * 256 = 25.6, truncated.
    assert_eq!(const_num_i32(0, 1).raw, 25);
}

#[test]
fn decimal_fifth_truncates() {
    assert_eq!(const_num_i32(0, 2).raw, 51);
}

#[test]
fn decimal_three_tenths_truncates() {
    assert_eq!(const_num_i32(0, 3).raw, 76);
}

#[test]
fn decimal_two_and_a_half() {
    assert_eq!(const_num_i32(2, 5).raw, 640);
}

#[test]
fn decimal_whole_numbers() {
    assert_eq!(const_num_i32(3, 0).raw, 768);
    assert_eq!(const_num_i32(16, 0).raw, 4096);
    assert_eq!(const_num_i32(35, 0).raw, 8960);
    assert_eq!(const_num_i32(19, 5).raw, 4992);
    assert_eq!(const_num_i32(0, 0).raw, 0);
}

#[test]
fn zero_and_minimum_increment() {
    assert_eq!(PosNum::zero().raw, 0);
    assert_eq!(PosNum::min_inc().raw, 1);
}

#[test]
fn arithmetic_basics() {
    let a = PosNum::new(3);
    let b = PosNum::from_raw(128); // 0.5
    assert_eq!(a.add(b).raw, 3 * 256 + 128);
    assert_eq!(a.sub(b).raw, 3 * 256 - 128);
    assert_eq!(b.neg().raw, -128);
    assert_eq!(b.neg().abs().raw, 128);
    assert_eq!(a.mul(b).raw, 384); // 1.5
    assert_eq!(a.div(PosNum::new(2)).raw, 384);
}

#[test]
fn floor_rounds_toward_negative_infinity() {
    assert_eq!(PosNum::from_raw(-1).floor(), -1);
    assert_eq!(PosNum::from_raw(-256).floor(), -1);
    assert_eq!(PosNum::from_raw(-257).floor(), -2);
    assert_eq!(PosNum::from_raw(255).floor(), 0);
    assert_eq!(PosNum::new(2).floor(), 2);
}

#[test]
fn trunc_rounds_toward_zero() {
    assert_eq!(PosNum::from_raw(-255).trunc(), 0);
    assert_eq!(PosNum::from_raw(-257).trunc(), -1);
    assert_eq!(PosNum::from_raw(511).trunc(), 1);
}

#[test]
fn division_floors_on_negatives() {
    // -16.004 px divided by 16: exactly floor(-4097 * 256 / 4096) = -257.
    let q = PosNum::from_raw(-4097).div(PosNum::new(16));
    assert_eq!(q.raw, -257);
    assert_eq!(q.floor(), -2);
}

#[test]
fn sqrt_of_four_is_two() {
    assert_eq!(PosNum::new(4).sqrt().raw, 2 * 256);
}

#[test]
fn sqrt_rounds_down() {
    // sqrt(2) = 1.4142...; raw floor is 362 (362^2 = 131044 <= 131072).
    assert_eq!(PosNum::new(2).sqrt().raw, 362);
}

#[test]
fn clamp_min_max() {
    let lo = PosNum::new(-1);
    let hi = PosNum::new(1);
    assert_eq!(PosNum::new(2).clamp(lo, hi).raw, 256);
    assert_eq!(PosNum::new(-2).clamp(lo, hi).raw, -256);
    assert_eq!(PosNum::from_raw(7).clamp(lo, hi).raw, 7);
    assert_eq!(PosNum::new(1).min(PosNum::new(2)).raw, 256);
    assert_eq!(PosNum::new(1).max(PosNum::new(2)).raw, 512);
}

#[test]
fn rects_touch_strictly() {
    let a = Rect::new(
        Vec2::new(PosNum::new(0), PosNum::new(0)),
        Vec2::new(PosNum::new(16), PosNum::new(16)),
    );
    let overlapping = Rect::new(
        Vec2::new(PosNum::new(8), PosNum::new(8)),
        Vec2::new(PosNum::new(16), PosNum::new(16)),
    );
    let flush = Rect::new(
        Vec2::new(PosNum::new(16), PosNum::new(0)),
        Vec2::new(PosNum::new(16), PosNum::new(16)),
    );
    assert!(a.touches(overlapping));
    // Rectangles that merely share an edge do not touch.
    assert!(!a.touches(flush));
}
