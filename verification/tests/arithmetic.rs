use keyframe_anim::bbox::BBox;
use keyframe_anim::fixed::{blend_scalar, floor_div, saturate_wide, wide_product, ONE};
use keyframe_anim::keyframe::Keyframe;
use keyframe_anim::quaternion::Quaternion;
use keyframe_anim::transform::Transform;
use keyframe_anim::vector::Vector;

fn v(x: i32, y: i32, z: i32) -> Vector {
    Vector::new(x * ONE, y * ONE, z * ONE)
}

fn quarter_turn_about_z() -> Quaternion {
    Quaternion::new(46341, 0, 0, 46341)
}

#[test]
fn floor_div_rounds_towards_negative_infinity() {
    assert_eq!(floor_div(7, 2), 3);
    assert_eq!(floor_div(-7, 2), -4);
    assert_eq!(floor_div(-8, 2), -4);
    assert_eq!(floor_div(-1, 65536), -1);
    assert_eq!(floor_div(0, 5), 0);
    assert_eq!(floor_div(i128::MIN, 1), i128::MIN);
}

#[test]
fn saturate_clamps_to_the_stored_range() {
    assert_eq!(saturate_wide(5), 5);
    assert_eq!(saturate_wide(-5), -5);
    assert_eq!(saturate_wide(2147483647), i32::MAX);
    assert_eq!(saturate_wide(2147483648), i32::MAX);
    assert_eq!(saturate_wide(-2147483648), i32::MIN);
    assert_eq!(saturate_wide(-2147483649), i32::MIN);
    assert_eq!(saturate_wide(i128::MAX), i32::MAX);
}

#[test]
fn wide_product_is_exact() {
    assert_eq!(wide_product(i32::MIN, i32::MIN), 4611686018427387904);
    assert_eq!(wide_product(i32::MAX, i32::MIN), -4611686016279904256);
    assert_eq!(wide_product(-3, 7), -21);
}

#[test]
fn blend_scalar_exact_values() {
    assert_eq!(blend_scalar(0, 10, 1, 3), 3);
    assert_eq!(blend_scalar(0, -10, 1, 3), -4);
    assert_eq!(blend_scalar(10, 0, 1, 3), 6);
    assert_eq!(blend_scalar(7, 7, 5, 9), 7);
    assert_eq!(blend_scalar(-5, 5, 0, 4), -5);
    assert_eq!(blend_scalar(-5, 5, 4, 4), 5);
    assert_eq!(blend_scalar(i32::MIN, i32::MAX, 1, 2), -1);
    assert_eq!(blend_scalar(i32::MAX, i32::MIN, 127, 127), i32::MIN);
    assert_eq!(blend_scalar(0, 10 * ONE, 32768, 65536), 5 * ONE);
}

#[test]
fn quaternion_dot_and_negation() {
    let a = Quaternion::new(1, 2, 3, 4);
    let b = Quaternion::new(5, -6, 7, -8);
    assert_eq!(a.dot(&b), 5 - 12 + 21 - 32);
    assert_eq!(a.dot(&b.neg()), 18);
    assert_eq!(b.neg(), Quaternion::new(-5, 6, -7, 8));
    assert_eq!(b.neg().neg(), b);
    let m = Quaternion::new(i32::MIN, i32::MIN, i32::MIN, i32::MIN);
    assert_eq!(m.dot(&m), 4 * 4611686018427387904i128);
}

#[test]
fn quaternion_well_formedness() {
    assert!(Quaternion::identity().is_wf());
    assert!(Quaternion::new(i32::MAX, -i32::MAX, 0, 1).is_wf());
    assert!(!Quaternion::new(i32::MIN, 0, 0, 0).is_wf());
    assert!(!Quaternion::new(0, 0, 0, i32::MIN).is_wf());
    let k = Keyframe::new(0, v(0, 0, 0), Quaternion::new(0, i32::MIN, 0, 0), v(1, 1, 1));
    assert!(!k.is_wf());
}

#[test]
fn quaternion_axes_of_identity_and_quarter_turn() {
    let id = Quaternion::identity().axes();
    assert_eq!(id.0, v(1, 0, 0));
    assert_eq!(id.1, v(0, 1, 0));
    assert_eq!(id.2, v(0, 0, 1));
    let turn = quarter_turn_about_z().axes();
    assert_eq!(turn.0, v(0, 1, 0));
    assert_eq!(turn.1, v(-1, 0, 0));
    assert_eq!(turn.2, v(0, 0, 1));
}

#[test]
fn quaternion_axes_do_not_depend_on_length() {
    let short = Quaternion::new(1, 0, 0, 1).axes();
    let long = Quaternion::new(1000000, 0, 0, 1000000).axes();
    assert_eq!(short, long);
    assert_eq!(short, quarter_turn_about_z().axes());
}

#[test]
fn quaternion_axes_stay_within_one() {
    let samples = [
        Quaternion::new(i32::MAX, i32::MIN, i32::MAX, i32::MIN),
        Quaternion::new(i32::MIN, i32::MIN, i32::MIN, i32::MIN),
        Quaternion::new(1, -1, 1, 0),
        Quaternion::new(3, 1, 4, 1),
        Quaternion::new(-59000, 26000, 5000, -10000),
    ];
    for q in samples {
        let (x, y, z) = q.axes();
        for c in [x.x, x.y, x.z, y.x, y.y, y.z, z.x, z.y, z.z] {
            assert!(-ONE <= c && c <= ONE);
        }
    }
}

#[test]
fn zero_quaternion_rotates_nothing() {
    let axes = Quaternion::new(0, 0, 0, 0).axes();
    assert_eq!(axes, Quaternion::identity().axes());
}

#[test]
fn quaternion_blend_is_componentwise() {
    let a = Quaternion::new(0, 10, -10, 7);
    let b = Quaternion::new(10, 0, 10, 7);
    assert_eq!(a.blend(&b, 1, 4), Quaternion::new(2, 7, -5, 7));
}

#[test]
fn identity_transform_moves_nothing() {
    let id = Transform::identity();
    let p = Vector::new(123456, -654321, 42);
    assert_eq!(id.apply_point(&p), p);
    assert_eq!(id.apply_vector(&p), p);
    let extreme = Vector::new(i32::MIN, i32::MAX, 0);
    assert_eq!(id.apply_point(&extreme), extreme);
}

#[test]
fn from_parts_scales_then_rotates_then_translates() {
    let t = Transform::from_parts(&v(1, 2, 3), &quarter_turn_about_z(), &v(2, 3, 4));
    assert_eq!(t.x_axis, v(0, 2, 0));
    assert_eq!(t.y_axis, v(-3, 0, 0));
    assert_eq!(t.z_axis, v(0, 0, 4));
    assert_eq!(t.origin, v(1, 2, 3));
    assert_eq!(t.apply_point(&v(1, 1, 1)), v(-2, 4, 7));
    assert_eq!(t.apply_vector(&v(1, 1, 1)), v(-3, 2, 4));
}

#[test]
fn compose_applies_the_inner_transform_first() {
    let shift = Transform::from_parts(&v(5, 0, 0), &Quaternion::identity(), &v(1, 1, 1));
    let turn = Transform::from_parts(&v(0, 0, 0), &quarter_turn_about_z(), &v(1, 1, 1));
    let turn_after_shift = turn.compose(&shift);
    let shift_after_turn = shift.compose(&turn);
    let p = v(1, 0, 0);
    assert_eq!(turn_after_shift.apply_point(&p), v(0, 6, 0));
    assert_eq!(shift_after_turn.apply_point(&p), v(5, 1, 0));
    assert_eq!(turn_after_shift.apply_point(&p), turn.apply_point(&shift.apply_point(&p)));
}

#[test]
fn compose_with_identity_changes_nothing() {
    let t = Transform::from_parts(&v(1, -2, 3), &Quaternion::new(3, 1, 4, 1), &v(2, 5, 7));
    assert_eq!(t.compose(&Transform::identity()), t);
    assert_eq!(Transform::identity().compose(&t), t);
}

#[test]
fn transform_saturates_at_the_stored_range() {
    let far = Transform::from_parts(
        &Vector::new(i32::MAX, i32::MIN, 0),
        &Quaternion::identity(),
        &v(1, 1, 1),
    );
    let p = far.apply_point(&v(1, -1, 0));
    assert_eq!(p, Vector::new(i32::MAX, i32::MIN, 0));
    let big = Transform::from_parts(&v(0, 0, 0), &Quaternion::identity(), &v(30000, 1, 1));
    assert_eq!(big.compose(&big).x_axis, Vector::new(i32::MAX, 0, 0));
}

#[test]
fn products_round_down() {
    let half = Transform::from_parts(
        &Vector::new(0, 0, 0),
        &Quaternion::identity(),
        &Vector::new(ONE / 2, ONE / 2, ONE / 2),
    );
    assert_eq!(half.apply_point(&Vector::new(3, -3, 1)), Vector::new(1, -2, 0));
}

#[test]
fn empty_box_is_the_unit_of_union() {
    let b = BBox::span(v(-1, 0, 2), v(3, 4, 5));
    assert_eq!(BBox::new().box_union(&b), b);
    assert_eq!(b.box_union(&BBox::new()), b);
    assert_eq!(BBox::new().point_union(&v(1, 2, 3)), BBox::span(v(1, 2, 3), v(1, 2, 3)));
    assert_eq!(BBox::new().min, Vector::new(i32::MAX, i32::MAX, i32::MAX));
    assert_eq!(BBox::new().max, Vector::new(i32::MIN, i32::MIN, i32::MIN));
}

#[test]
fn box_union_takes_lowest_and_highest() {
    let a = BBox::span(v(0, 0, 0), v(1, 1, 1));
    let b = BBox::span(v(-2, 3, 0), v(0, 4, 5));
    assert_eq!(a.box_union(&b), BBox::span(v(-2, 0, 0), v(1, 4, 5)));
    assert_eq!(a.point_union(&v(7, -7, 0)), BBox::span(v(0, -7, 0), v(7, 1, 1)));
}

#[test]
fn box_corners_are_numbered_by_axis_bits() {
    let b = BBox::span(v(0, 0, 0), v(1, 2, 3));
    assert_eq!(b.corner_at(0), v(0, 0, 0));
    assert_eq!(b.corner_at(1), v(1, 0, 0));
    assert_eq!(b.corner_at(2), v(0, 2, 0));
    assert_eq!(b.corner_at(3), v(1, 2, 0));
    assert_eq!(b.corner_at(4), v(0, 0, 3));
    assert_eq!(b.corner_at(7), v(1, 2, 3));
}

#[test]
fn apply_box_bounds_the_eight_corner_images() {
    let turn = Transform::from_parts(&v(10, 0, 0), &quarter_turn_about_z(), &v(1, 1, 1));
    let b = BBox::span(v(0, 0, 0), v(1, 2, 3));
    assert_eq!(turn.apply_box(&b), BBox::span(v(8, 0, 0), v(10, 1, 3)));
    assert_eq!(Transform::identity().apply_box(&b), b);
}

#[test]
fn keyframe_transform_of_its_parts() {
    let k = Keyframe::new(77, v(1, 2, 3), quarter_turn_about_z(), v(2, 3, 4));
    assert_eq!(
        k.transform(),
        Transform::from_parts(&v(1, 2, 3), &quarter_turn_about_z(), &v(2, 3, 4))
    );
}

#[test]
fn keyframe_interpolate_blends_every_part() {
    let a = Keyframe::new(0, v(0, 0, 0), Quaternion::new(ONE, 0, 0, 0), v(1, 1, 1));
    let b = Keyframe::new(ONE, v(10, -10, 2), Quaternion::new(0, ONE, 0, 0), v(3, 1, 5));
    let mid = a.interpolate(&b, 1, 2);
    assert_eq!(mid.time, ONE / 2);
    assert_eq!(mid.translation, v(5, -5, 1));
    assert_eq!(mid.rotation, Quaternion::new(ONE / 2, ONE / 2, 0, 0));
    assert_eq!(mid.scale, v(2, 1, 3));
    assert_eq!(a.interpolate(&b, 0, 2), a);
    assert_eq!(a.interpolate(&b, 2, 2), b);
}
