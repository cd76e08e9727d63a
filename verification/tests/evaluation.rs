use keyframe_anim::animated::AnimatedTransform;
use keyframe_anim::bbox::BBox;
use keyframe_anim::fixed::ONE;
use keyframe_anim::keyframe::Keyframe;
use keyframe_anim::level::Level;
use keyframe_anim::quaternion::Quaternion;
use keyframe_anim::transform::Transform;
use keyframe_anim::vector::Vector;

fn v(x: i32, y: i32, z: i32) -> Vector {
    Vector::new(x * ONE, y * ONE, z * ONE)
}

fn identity_pose(time: i32) -> Keyframe {
    Keyframe::new(time, v(0, 0, 0), Quaternion::identity(), v(1, 1, 1))
}

fn shifted(time: i32, x: i32, y: i32, z: i32) -> Keyframe {
    Keyframe::new(time, v(x, y, z), Quaternion::identity(), v(1, 1, 1))
}

fn quarter_turn_about_z() -> Quaternion {
    Quaternion::new(46341, 0, 0, 46341)
}

fn sample_time(start: i32, end: i32, i: i64) -> i32 {
    let span = (end as i64) - (start as i64);
    ((start as i64) + (span * i).div_euclid(127)) as i32
}

fn contains(outer: &BBox, inner: &BBox) -> bool {
    outer.min.x <= inner.min.x && outer.min.y <= inner.min.y && outer.min.z <= inner.min.z
        && inner.max.x <= outer.max.x && inner.max.y <= outer.max.y && inner.max.z <= outer.max.z
}

fn slide() -> AnimatedTransform {
    AnimatedTransform::with_keyframes(vec![identity_pose(0), shifted(ONE, 10, 0, 0)])
}

fn swing() -> AnimatedTransform {
    AnimatedTransform::with_keyframes(vec![
        Keyframe::new(0, v(0, 0, 0), Quaternion::identity(), v(1, 1, 1)),
        Keyframe::new(4 * ONE, v(0, 3, 0), quarter_turn_about_z(), v(2, 2, 2)),
    ])
}

#[test]
fn halfway_between_two_translations() {
    let a = slide();
    let t = a.transform(ONE / 2);
    assert_eq!(t.origin, v(5, 0, 0));
    assert_eq!(t, shifted(ONE / 2, 5, 0, 0).transform());
    assert_eq!(a.transform(0), Transform::identity());
    assert_eq!(a.transform(ONE).origin, v(10, 0, 0));
    assert_eq!(a.transform(ONE / 4).origin, Vector::new(10 * ONE / 4, 0, 0));
}

#[test]
fn opposite_signs_interpolate_along_the_short_path() {
    let q = Quaternion::new(40000, 30000, -20000, 35000);
    let a = AnimatedTransform::with_keyframes(vec![
        Keyframe::new(0, v(0, 0, 0), q, v(1, 1, 1)),
        Keyframe::new(ONE, v(0, 0, 0), q.neg(), v(1, 1, 1)),
    ]);
    let level = &a.levels()[0];
    assert_eq!(level.point_at(ONE / 2).rotation, q);
    let at_q = Keyframe::new(0, v(0, 0, 0), q, v(1, 1, 1)).transform();
    assert_eq!(a.transform(ONE / 2), at_q);
    assert_eq!(a.transform(ONE / 3), at_q);
}

#[test]
fn negated_rotation_gives_the_same_transform() {
    let q = Quaternion::new(40000, 30000, -20000, 35000);
    let k = Keyframe::new(5, v(1, 2, 3), q, v(2, 3, 4));
    assert_eq!(k.flip().transform(), k.transform());
    let half = Quaternion::new(ONE / 2, ONE / 2, ONE / 2, ONE / 2);
    assert_eq!(half.neg().axes(), half.axes());
    let plain = AnimatedTransform::with_keyframes(vec![k]);
    let negated = AnimatedTransform::with_keyframes(vec![k.flip()]);
    assert_eq!(plain.transform(5), negated.transform(5));
}

#[test]
fn sign_correction_is_invisible_at_the_keyframe_times() {
    let q = Quaternion::new(40000, 30000, -20000, 35000);
    let first = Keyframe::new(0, v(1, 0, 0), q, v(1, 1, 1));
    let second = Keyframe::new(ONE, v(0, 1, 0), q.neg(), v(1, 2, 1));
    let a = AnimatedTransform::with_keyframes(vec![second, first]);
    assert_eq!(a.transform(0), first.transform());
    assert_eq!(a.transform(ONE), second.transform());
}

#[test]
fn signs_given_do_not_show_at_any_keyframe_time() {
    let q0 = Quaternion::new(40000, 30000, -20000, 35000);
    let q1 = Quaternion::new(-10000, 50000, 20000, -5000);
    let q2 = Quaternion::new(0, 0, 65536, 0);
    let plain = vec![
        Keyframe::new(2 * ONE, v(1, 0, 0), q0, v(1, 1, 1)),
        Keyframe::new(0, v(0, 1, 0), q1, v(1, 2, 1)),
        Keyframe::new(ONE, v(0, 0, 1), q2, v(3, 1, 1)),
        Keyframe::new(ONE, v(5, 5, 5), q0, v(1, 1, 2)),
    ];
    for mask in 0..16 {
        let mut signed = plain.clone();
        for i in 0..4 {
            if mask & (1 << i) != 0 {
                signed[i] = signed[i].flip();
            }
        }
        let a = AnimatedTransform::with_keyframes(plain.clone());
        let b = AnimatedTransform::with_keyframes(signed);
        for k in &plain {
            assert_eq!(a.transform(k.time), b.transform(k.time));
        }
    }
}

#[test]
fn single_keyframe_is_constant_in_time() {
    let k = Keyframe::new(3 * ONE, v(1, -2, 3), quarter_turn_about_z(), v(2, 2, 2));
    let a = AnimatedTransform::with_keyframes(vec![k]);
    for t in [i32::MIN, -ONE, 0, 1, 3 * ONE, 100 * ONE, i32::MAX] {
        assert_eq!(a.transform(t), k.transform());
    }
}

#[test]
fn times_outside_the_keyframes_stay_at_the_ends() {
    let a = slide();
    assert_eq!(a.transform(-5 * ONE), Transform::identity());
    assert_eq!(a.transform(i32::MIN), Transform::identity());
    assert_eq!(a.transform(2 * ONE).origin, v(10, 0, 0));
    assert_eq!(a.transform(i32::MAX).origin, v(10, 0, 0));
}

#[test]
fn keyframes_beyond_the_second_do_not_shape_the_curve() {
    let a = AnimatedTransform::with_keyframes(vec![
        shifted(2 * ONE, 50, 0, 0),
        identity_pose(0),
        shifted(ONE, 10, 0, 0),
    ]);
    assert_eq!(a.transform(ONE / 2).origin, v(5, 0, 0));
    assert_eq!(a.transform(2 * ONE).origin, v(10, 0, 0));
    assert!(a.is_animated());
}

#[test]
fn keyframes_of_equal_time_give_the_first() {
    let a = AnimatedTransform::with_keyframes(vec![shifted(7, 1, 0, 0), shifted(7, 2, 0, 0)]);
    assert_eq!(a.transform(7).origin, v(1, 0, 0));
    assert_eq!(a.transform(6).origin, v(1, 0, 0));
    assert_eq!(a.transform(8).origin, v(2, 0, 0));
}

#[test]
fn curve_point_has_the_time_asked_for() {
    let level = Level::new(vec![shifted(-3 * ONE, 0, 0, 0), shifted(11 * ONE + 5, 10, 20, 30)]);
    for t in [-3 * ONE, -3 * ONE + 1, 0, 12345, 11 * ONE + 4, 11 * ONE + 5] {
        assert_eq!(level.point_at(t).time, t);
    }
}

#[test]
fn level_point_and_pose_agree() {
    let level = Level::new(vec![identity_pose(0), shifted(ONE, 10, 20, 30)]);
    let k = level.point_at(ONE / 2);
    assert_eq!(k, shifted(ONE / 2, 5, 10, 15));
    assert_eq!(level.pose_at(ONE / 2), k.transform());
}

#[test]
fn empty_chain_is_the_identity() {
    let a = AnimatedTransform::empty();
    assert_eq!(a.levels().len(), 0);
    assert_eq!(a.transform(0), Transform::identity());
    assert_eq!(a.transform(12345), Transform::identity());
    assert!(!a.is_animated());
}

#[test]
fn is_animated_needs_every_level_to_vary() {
    assert!(!AnimatedTransform::empty().is_animated());
    assert!(!AnimatedTransform::with_keyframes(vec![identity_pose(0)]).is_animated());
    assert!(slide().is_animated());
    assert!((slide() * swing()).is_animated());
    let fixed = AnimatedTransform::with_keyframes(vec![shifted(0, 1, 0, 0)]);
    assert!(!(slide() * fixed.clone()).is_animated());
    assert!(!(fixed * slide()).is_animated());
}

#[test]
fn product_holds_the_right_hand_levels_first() {
    let a = AnimatedTransform::with_keyframes(vec![shifted(1, 1, 0, 0)]);
    let b = AnimatedTransform::with_keyframes(vec![shifted(2, 2, 0, 0), shifted(3, 3, 0, 0)]);
    let c = a * b;
    assert_eq!(c.levels().len(), 2);
    assert_eq!(c.levels()[0].control_points(), &vec![shifted(2, 2, 0, 0), shifted(3, 3, 0, 0)]);
    assert_eq!(c.levels()[1].control_points(), &vec![shifted(1, 1, 0, 0)]);
    assert_eq!(c.levels()[0].knots(), &vec![2, 2, 3, 3]);
    assert_eq!(c.levels()[1].knots(), &vec![1, 1, 1]);
}

#[test]
fn product_applies_the_right_hand_pose_first() {
    let turn = AnimatedTransform::with_keyframes(vec![Keyframe::new(
        0,
        v(0, 0, 0),
        quarter_turn_about_z(),
        v(1, 1, 1),
    )]);
    for t in [0, ONE / 3, ONE / 2, ONE, 2 * ONE] {
        let product = turn.clone() * slide();
        let expected = turn.transform(t).compose(&slide().transform(t));
        assert_eq!(product.transform(t), expected);
    }
    let product = turn.clone() * slide();
    assert_eq!(product.transform(ONE).apply_point(&v(0, 0, 0)), v(0, 10, 0));
    let other = slide() * turn.clone();
    assert_eq!(other.transform(ONE).apply_point(&v(1, 0, 0)), v(10, 1, 0));
}

#[test]
fn product_of_three_chains() {
    let t = ONE / 2;
    let a = slide();
    let b = swing();
    let c = AnimatedTransform::with_keyframes(vec![shifted(0, 0, 0, 7)]);
    let all = a.clone() * b.clone() * c.clone();
    assert_eq!(all.levels().len(), 3);
    let expected = a.transform(t).compose(&b.transform(t).compose(&c.transform(t)));
    assert_eq!(all.transform(t), expected);
}

#[test]
fn product_with_the_empty_chain() {
    let a = slide() * AnimatedTransform::empty();
    let b = AnimatedTransform::empty() * slide();
    assert_eq!(a.levels().len(), 1);
    assert_eq!(b.levels().len(), 1);
    assert_eq!(a.transform(ONE / 2), slide().transform(ONE / 2));
    assert_eq!(b.transform(ONE / 2), slide().transform(ONE / 2));
    assert_eq!((AnimatedTransform::empty() * AnimatedTransform::empty()).levels().len(), 0);
}

#[test]
fn transform_with_points_from_elsewhere() {
    let fixed = AnimatedTransform::with_keyframes(vec![shifted(0, 0, 5, 0)]);
    let chain = slide() * fixed;
    let ignored = shifted(0, 100, 100, 100);
    let given = shifted(0, 3, 0, 0);
    let t = chain.transform_with(&vec![ignored, given]);
    assert_eq!(t, given.transform().compose(&shifted(0, 0, 5, 0).transform()));
    assert_eq!(t.origin, v(3, 5, 0));
    assert_eq!(AnimatedTransform::empty().transform_with(&Vec::new()), Transform::identity());
}

#[test]
fn transform_with_the_levels_own_points() {
    let chain = swing() * slide();
    for t in [-ONE, 0, ONE / 3, ONE, 3 * ONE, 9 * ONE] {
        let mut points = Vec::new();
        for level in chain.levels() {
            points.push(level.point_at(t));
        }
        assert_eq!(chain.transform_with(&points), chain.transform(t));
    }
}

#[test]
fn clone_keeps_every_level() {
    let a = (slide() * swing());
    let b = a.clone();
    assert_eq!(b.levels().len(), 2);
    for i in 0..2 {
        assert_eq!(a.levels()[i].control_points(), b.levels()[i].control_points());
        assert_eq!(a.levels()[i].knots(), b.levels()[i].knots());
    }
}

#[test]
fn bounds_of_a_static_chain_are_the_box_at_start() {
    let b = BBox::span(v(0, 0, 0), v(1, 1, 1));
    let fixed = AnimatedTransform::with_keyframes(vec![Keyframe::new(
        0,
        v(2, 0, 0),
        quarter_turn_about_z(),
        v(1, 1, 1),
    )]);
    assert_eq!(fixed.animation_bounds(&b, 0, ONE), fixed.transform(0).apply_box(&b));
    assert_eq!(fixed.animation_bounds(&b, 0, ONE), BBox::span(v(1, 0, 0), v(2, 1, 1)));
    let empty = AnimatedTransform::empty();
    assert_eq!(empty.animation_bounds(&b, 0, ONE), b);
}

#[test]
fn bounds_of_a_partly_static_chain_are_taken_at_start_only() {
    let b = BBox::span(v(0, 0, 0), v(1, 1, 1));
    let fixed = AnimatedTransform::with_keyframes(vec![shifted(0, 0, 5, 0)]);
    let chain = slide() * fixed;
    assert!(!chain.is_animated());
    assert_eq!(chain.animation_bounds(&b, 0, ONE), chain.transform(0).apply_box(&b));
    assert_eq!(chain.animation_bounds(&b, 0, ONE), BBox::span(v(0, 5, 0), v(1, 6, 1)));
    assert_eq!(chain.animation_bounds(&b, ONE, 0), BBox::span(v(10, 5, 0), v(11, 6, 1)));
}

#[test]
fn bounds_of_a_sliding_box() {
    let b = BBox::span(v(0, 0, 0), v(1, 1, 1));
    let a = slide();
    assert_eq!(a.animation_bounds(&b, 0, ONE), BBox::span(v(0, 0, 0), v(11, 1, 1)));
    assert_eq!(a.animation_bounds(&b, ONE, 0), BBox::span(v(0, 0, 0), v(11, 1, 1)));
    assert_eq!(
        a.animation_bounds(&b, 0, ONE / 2),
        BBox::span(v(0, 0, 0), v(6, 1, 1))
    );
    assert_eq!(a.animation_bounds(&b, ONE, ONE), BBox::span(v(10, 0, 0), v(11, 1, 1)));
}

#[test]
fn bounds_contain_the_box_at_every_sample() {
    let b = BBox::span(v(-1, 0, 2), v(3, 1, 5));
    let chain = swing() * slide();
    assert!(chain.is_animated());
    let start = -ONE;
    let end = 5 * ONE + 17;
    let bounds = chain.animation_bounds(&b, start, end);
    assert!(contains(&bounds, &chain.transform(start).apply_box(&b)));
    assert!(contains(&bounds, &chain.transform(end).apply_box(&b)));
    let mut union = BBox::new();
    for i in 0..128 {
        let at = chain.transform(sample_time(start, end, i)).apply_box(&b);
        assert!(contains(&bounds, &at));
        union = union.box_union(&at);
    }
    assert_eq!(bounds, union);
    assert_eq!(sample_time(start, end, 0), start);
    assert_eq!(sample_time(start, end, 127), end);
}
