//! One level of a transform hierarchy: a linear curve through a normalized
//! keyframe list.

use vstd::prelude::*;
use vstd::arithmetic::div_mod::lemma_div_multiples_vanish;
use crate::fixed::lemma_blend_between;
use crate::keyframe::{lemma_flipped_pose, lemma_same_up_to_sign, Keyframe};
use crate::normalize::{
    all_wf, ascending, knot_vector, knots_for, normalize, normalized, same_up_to_signs,
    shortest_arcs, sorted,
};
use crate::normalize::{
    lemma_aligned, lemma_aligned_times, lemma_normalized_arcs, lemma_normalized_pair,
    lemma_normalized_signs, lemma_normalized_sorted, lemma_sorted, lemma_sorted_wf,
};
use crate::quaternion::lemma_dot_negated;
use crate::transform::Transform;

verus! {

/// The animated data of one position in the hierarchy.
#[derive(Debug)]
pub struct Level {
    control_points: Vec<Keyframe>,
    knots: Vec<i32>,
}

/// What a level holds: its normalized keyframes and its knot vector.
pub struct LevelView {
    pub control_points: Seq<Keyframe>,
    pub knots: Seq<i32>,
}

impl LevelView {
    /// The level that a keyframe list gives: the list in canonical form,
    /// with the knot vector derived from it.
    pub open spec fn of(keyframes: Seq<Keyframe>) -> LevelView {
        LevelView {
            control_points: normalized(keyframes),
            knots: knots_for(normalized(keyframes)),
        }
    }

    /// A level holds at least one keyframe; its keyframes are well formed,
    /// ascending in time and free of long rotation arcs; its knot vector is
    /// the one derived from them.
    pub open spec fn wf(self) -> bool {
        &&& self.control_points.len() > 0
        &&& all_wf(self.control_points)
        &&& ascending(self.control_points)
        &&& shortest_arcs(self.control_points)
        &&& self.knots == knots_for(self.control_points)
    }

    /// Whether the level holds a single keyframe and so does not vary.
    pub open spec fn is_static(self) -> bool {
        self.control_points.len() == 1
    }

    /// The keyframe on the curve at time `t`. A lone keyframe is the whole
    /// curve. Otherwise the curve runs linearly from the first keyframe at
    /// the second knot to the second keyframe at the third knot, and stays
    /// at its ends outside that span.
    pub open spec fn point(self, t: i32) -> Keyframe
        recommends
            self.wf(),
    {
        if self.control_points.len() == 1 {
            self.control_points[0]
        } else {
            let from = self.knots[1];
            let to = self.knots[2];
            if t <= from {
                self.control_points[0]
            } else if t >= to {
                self.control_points[1]
            } else {
                self.control_points[0].blended(self.control_points[1], t - from, to - from)
            }
        }
    }

    /// The pose of the level at time `t`.
    pub open spec fn pose(self, t: i32) -> Transform
        recommends
            self.wf(),
    {
        self.point(t).pose()
    }

    /// The pose of the level when its curve was evaluated to `point`: a
    /// level with a single keyframe keeps that keyframe's pose.
    pub open spec fn pose_given(self, point: Keyframe) -> Transform
        recommends
            self.wf(),
    {
        if self.control_points.len() == 1 {
            self.control_points[0].pose()
        } else {
            point.pose()
        }
    }
}

impl View for Level {
    type V = LevelView;

    closed spec fn view(&self) -> LevelView {
        LevelView { control_points: self.control_points@, knots: self.knots@ }
    }
}

impl Clone for Level {
    fn clone(&self) -> (r: Level)
        ensures
            r@ == self@,
    {
        let mut control_points: Vec<Keyframe> = Vec::new();
        let mut i: usize = 0;
        while i < self.control_points.len()
            invariant
                i <= self.control_points.len(),
                control_points@ == self.control_points@.take(i as int),
            decreases self.control_points.len() - i,
        {
            control_points.push(self.control_points[i]);
            assert(control_points@ =~= self.control_points@.take(i + 1));
            i = i + 1;
        }
        let mut knots: Vec<i32> = Vec::new();
        let mut j: usize = 0;
        while j < self.knots.len()
            invariant
                j <= self.knots.len(),
                knots@ == self.knots@.take(j as int),
            decreases self.knots.len() - j,
        {
            knots.push(self.knots[j]);
            assert(knots@ =~= self.knots@.take(j + 1));
            j = j + 1;
        }
        proof {
            use_type_invariant(self);
            assert(control_points@ =~= self.control_points@);
            assert(knots@ =~= self.knots@);
        }
        Level { control_points, knots }
    }
}

impl Level {
    /// Every level is well formed.
    #[verifier::type_invariant]
    spec fn inv(self) -> bool {
        self@.wf()
    }

    /// Builds a level from keyframes in any order.
    pub fn new(keyframes: Vec<Keyframe>) -> (level: Level)
        requires
            keyframes@.len() > 0,
            all_wf(keyframes@),
        ensures
            level@ == LevelView::of(keyframes@),
            level@.wf(),
            level@.control_points.len() == keyframes@.len(),
    {
        let control_points = normalize(&keyframes);
        let knots = knot_vector(&control_points);
        Level { control_points, knots }
    }

    /// The normalized keyframes of the level.
    pub fn control_points(&self) -> (points: &Vec<Keyframe>)
        ensures
            points@ == self@.control_points,
            self@.wf(),
    {
        proof {
            use_type_invariant(self);
        }
        &self.control_points
    }

    /// The knot vector of the level.
    pub fn knots(&self) -> (knots: &Vec<i32>)
        ensures
            knots@ == self@.knots,
            self@.wf(),
    {
        proof {
            use_type_invariant(self);
        }
        &self.knots
    }

    /// The keyframe on the curve at time `t`.
    pub fn point_at(&self, t: i32) -> (k: Keyframe)
        ensures
            k == self@.point(t),
            k.wf(),
            self@.wf(),
    {
        proof {
            use_type_invariant(self);
        }
        if self.control_points.len() == 1 {
            self.control_points[0]
        } else {
            let from: i32 = self.knots[1];
            let to: i32 = self.knots[2];
            if t <= from {
                self.control_points[0]
            } else if t >= to {
                self.control_points[1]
            } else {
                let num: i64 = (t as i64) - (from as i64);
                let den: i64 = (to as i64) - (from as i64);
                self.control_points[0].interpolate(&self.control_points[1], num, den)
            }
        }
    }

    /// The pose of the level at time `t`.
    pub fn pose_at(&self, t: i32) -> (pose: Transform)
        ensures
            pose == self@.pose(t),
    {
        self.point_at(t).transform()
    }
}

/// A non-empty list of well-formed keyframes gives a well-formed level with
/// as many keyframes.
pub proof fn lemma_level_of(keyframes: Seq<Keyframe>)
    requires
        keyframes.len() > 0,
        all_wf(keyframes),
    ensures
        LevelView::of(keyframes).wf(),
        LevelView::of(keyframes).control_points.len() == keyframes.len(),
{
    lemma_normalized_sorted(keyframes);
    lemma_normalized_arcs(keyframes);
}

/// Between its second and its third knot a curve of two or more keyframes
/// is at time `t` at a keyframe of time `t`.
pub proof fn lemma_point_time(level: LevelView, t: i32)
    requires
        level.wf(),
        level.control_points.len() >= 2,
        level.knots[1] <= t <= level.knots[2],
    ensures
        level.point(t).time == t,
{
    let from = level.knots[1];
    let to = level.knots[2];
    if from < t < to {
        assert((to - from) * (t - from) == (t - from) * (to - from)) by (nonlinear_arith);
        lemma_div_multiples_vanish(t - from, to - from);
    }
}

/// At the time of each of its first two keyframes a level takes the pose
/// that the keyframe was given with, whatever sign the normalization left
/// its rotation with. Where both have the same time, the first one counts.
pub proof fn lemma_pose_at_keyframe_times(keyframes: Seq<Keyframe>)
    requires
        keyframes.len() > 0,
        all_wf(keyframes),
    ensures
        LevelView::of(keyframes).pose(sorted(keyframes)[0].time) == sorted(keyframes)[0].pose(),
        keyframes.len() >= 2 && sorted(keyframes)[0].time < sorted(keyframes)[1].time
            ==> LevelView::of(keyframes).pose(sorted(keyframes)[1].time) == sorted(
            keyframes,
        )[1].pose(),
{
    let by_time = sorted(keyframes);
    lemma_sorted(keyframes);
    lemma_sorted_wf(keyframes);
    lemma_aligned(by_time);
    lemma_aligned_times(by_time);
    let level = LevelView::of(keyframes);
    assert(level.control_points[0] == by_time[0]);
    if keyframes.len() >= 2 {
        assert(level.control_points[1] == by_time[1] || level.control_points[1]
            == by_time[1].flipped());
        lemma_flipped_pose(by_time[1]);
    }
}

/// Sorting loses no keyframe: each one given has a place in the sorted list.
proof fn lemma_sorted_contains(a: Seq<Keyframe>, j: int) -> (m: int)
    requires
        0 <= j < a.len(),
    ensures
        0 <= m < sorted(a).len(),
        sorted(a)[m] == a[j],
{
    broadcast use vstd::seq_lib::group_to_multiset_ensures;
    lemma_sorted(a);
    assert(a.contains(a[j]));
    assert(a.to_multiset().count(a[j]) > 0);
    assert(sorted(a).contains(a[j]));
    choose|m: int| 0 <= m < sorted(a).len() && sorted(a)[m] == a[j]
}

/// At the time of any of its keyframes the curve is at one of its ends: at
/// the first keyframe where the time is that of the first, else at the
/// second.
proof fn lemma_point_at_keyframe_time(level: LevelView, m: int)
    requires
        level.control_points.len() > 0,
        ascending(level.control_points),
        level.knots == knots_for(level.control_points),
        0 <= m < level.control_points.len(),
    ensures
        level.point(level.control_points[m].time) == if level.control_points.len() == 1
            || level.control_points[m].time <= level.control_points[0].time {
            level.control_points[0]
        } else {
            level.control_points[1]
        },
{
    let points = level.control_points;
    if points.len() > 1 && m >= 1 {
        assert(points[1].time <= points[m].time);
    }
}

/// Two lists that differ in rotation signs at most give curves whose
/// points, at the time of any keyframe given, differ in the sign of their
/// rotation at most.
proof fn lemma_point_signs(a: Seq<Keyframe>, b: Seq<Keyframe>, j: int)
    requires
        all_wf(a),
        all_wf(b),
        same_up_to_signs(a, b),
        0 <= j < a.len(),
    ensures
        LevelView::of(a).point(a[j].time).wf(),
        LevelView::of(a).point(a[j].time).same_up_to_sign(LevelView::of(b).point(a[j].time)),
{
    let x = normalized(a);
    let y = normalized(b);
    lemma_normalized_signs(a, b);
    lemma_level_of(a);
    lemma_level_of(b);
    lemma_aligned_times(sorted(a));
    let m = lemma_sorted_contains(a, j);
    assert(x[m].time == a[j].time);
    assert(x[0].same_up_to_sign(y[0]));
    assert(x[0].wf());
    if x.len() > 1 {
        assert(x[1].same_up_to_sign(y[1]));
        assert(x[1].wf());
    }
    assert(y[m].time == a[j].time) by {
        assert(x[m].same_up_to_sign(y[m]));
    }
    lemma_point_at_keyframe_time(LevelView::of(a), m);
    lemma_point_at_keyframe_time(LevelView::of(b), m);
}

/// The signs of the rotations given do not show at the keyframes' own times:
/// two lists that differ in rotation signs at most give levels with the same
/// pose at the time of every keyframe of the list.
pub proof fn lemma_signs_do_not_show(a: Seq<Keyframe>, b: Seq<Keyframe>, j: int)
    requires
        all_wf(a),
        all_wf(b),
        same_up_to_signs(a, b),
        0 <= j < a.len(),
    ensures
        LevelView::of(b).pose(a[j].time) == LevelView::of(a).pose(a[j].time),
{
    lemma_point_signs(a, b, j);
    let p = LevelView::of(a).point(a[j].time);
    let q = LevelView::of(b).point(a[j].time);
    lemma_same_up_to_sign(p, q, q);
}

/// Two keyframes whose rotations differ only in sign are blended along the
/// short way: at every time the curve has the rotation of the earlier one.
pub proof fn lemma_opposite_rotations(first: Keyframe, second: Keyframe, t: i32)
    requires
        first.wf(),
        second.wf(),
        first.time <= second.time,
        second.rotation == first.rotation.negated(),
    ensures
        LevelView::of(seq![first, second]).point(t).rotation == first.rotation,
{
    let q = first.rotation;
    lemma_normalized_pair(first, second);
    lemma_dot_negated(q, q);
    assert(q.dot_product(q) >= 0) by (nonlinear_arith)
        requires
            q.dot_product(q) == q.w * q.w + q.x * q.x + q.y * q.y + q.z * q.z,
    ;
    let level = LevelView::of(seq![first, second]);
    if q.dot_product(q) == 0 {
        assert(q.w == 0 && q.x == 0 && q.y == 0 && q.z == 0) by (nonlinear_arith)
            requires
                q.w * q.w + q.x * q.x + q.y * q.y + q.z * q.z == 0,
        ;
    }
    assert(level.control_points[0].rotation == q);
    assert(level.control_points[1].rotation == q);
    let from = level.knots[1];
    let to = level.knots[2];
    if from < t < to {
        lemma_blend_between(q.w as int, q.w as int, t - from, to - from);
        lemma_blend_between(q.x as int, q.x as int, t - from, to - from);
        lemma_blend_between(q.y as int, q.y as int, t - from, to - from);
        lemma_blend_between(q.z as int, q.z as int, t - from, to - from);
    }
}

} // verus!
