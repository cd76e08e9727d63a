//! Animated transforms: a chain of levels, from an object up through its
//! ancestors, evaluated at a time or swept over an interval.

use vstd::prelude::*;
use crate::bbox::BBox;
use crate::fixed::{blend, blend_scalar, lemma_blend_between};
use crate::keyframe::Keyframe;
use crate::level::{lemma_signs_do_not_show, Level, LevelView};
use crate::normalize::{all_wf, lemma_normalized_single, same_up_to_signs};
use crate::transform::{lemma_compose_unit, Transform};

verus! {

/// The number of instants at which a moving box is sampled.
pub const SAMPLES: u8 = 128;

/// A transform that varies with time. The first level is the object's own
/// animation, the next one its parent's, and so on up the hierarchy.
#[derive(Debug)]
pub struct AnimatedTransform {
    levels: Vec<Level>,
}

/// Whether every level of a chain is well formed.
pub open spec fn chain_wf(levels: Seq<LevelView>) -> bool {
    forall|i: int| 0 <= i < levels.len() ==> (#[trigger] levels[i]).wf()
}

/// The transform that results from applying the poses of the levels at time
/// `t`, in order, on top of `base`: each level's pose multiplies what the
/// levels before it have built.
pub open spec fn stacked(levels: Seq<LevelView>, t: i32, base: Transform) -> Transform
    decreases levels.len(),
{
    if levels.len() == 0 {
        base
    } else {
        levels.last().pose(t).composed(stacked(levels.drop_last(), t, base))
    }
}

/// The transform of a chain at time `t`.
pub open spec fn chain_transform(levels: Seq<LevelView>, t: i32) -> Transform {
    stacked(levels, t, Transform::unit())
}

/// The transform that results when the curve of every level was evaluated
/// elsewhere and gave `points`, one keyframe for each level: as `stacked`,
/// with each level's pose taken from its point.
pub open spec fn stacked_points(
    levels: Seq<LevelView>,
    points: Seq<Keyframe>,
    base: Transform,
) -> Transform
    recommends
        points.len() == levels.len(),
    decreases levels.len(),
{
    if levels.len() == 0 {
        base
    } else {
        levels.last().pose_given(points[levels.len() - 1]).composed(
            stacked_points(levels.drop_last(), points, base),
        )
    }
}

/// A chain counts as animated when it has a level and every level holds
/// more than one keyframe.
pub open spec fn chain_animated(levels: Seq<LevelView>) -> bool {
    levels.len() > 0 && forall|i: int|
        0 <= i < levels.len() ==> (#[trigger] levels[i]).control_points.len() > 1
}

/// The instant of sample `i`: the point `i / 127` of the way from `start`
/// to `end`.
pub open spec fn sample_time(start: i32, end: i32, i: int) -> i32
    recommends
        0 <= i < 128,
{
    blend(start as int, end as int, i, 127) as i32
}

/// The image of the box `b` under the chain at sample `i`.
pub open spec fn sample_box(
    levels: Seq<LevelView>,
    b: BBox,
    start: i32,
    end: i32,
    i: int,
) -> BBox {
    chain_transform(levels, sample_time(start, end, i)).image_of_box(b)
}

/// The union of the images of `b` at the first `n` samples.
pub open spec fn sampled_bounds(
    levels: Seq<LevelView>,
    b: BBox,
    start: i32,
    end: i32,
    n: nat,
) -> BBox
    decreases n,
{
    if n == 0 {
        BBox::empty()
    } else {
        sampled_bounds(levels, b, start, end, (n - 1) as nat).joined(
            sample_box(levels, b, start, end, n - 1),
        )
    }
}

/// The bounds of the box `b` moving under the chain from `start` to `end`:
/// its image at `start` where the chain is not animated, else the union of
/// its images at all samples.
pub open spec fn chain_bounds(levels: Seq<LevelView>, b: BBox, start: i32, end: i32) -> BBox {
    if chain_animated(levels) {
        sampled_bounds(levels, b, start, end, 128)
    } else {
        chain_transform(levels, start).image_of_box(b)
    }
}

/// The union over the first `n` samples contains the image at each of them.
pub proof fn lemma_sampled_bounds_contain(
    levels: Seq<LevelView>,
    b: BBox,
    start: i32,
    end: i32,
    n: nat,
    i: int,
)
    requires
        0 <= i < n,
    ensures
        sampled_bounds(levels, b, start, end, n).contains_box(sample_box(levels, b, start, end, i)),
    decreases n,
{
    if i < n - 1 {
        lemma_sampled_bounds_contain(levels, b, start, end, (n - 1) as nat, i);
    }
}

/// The first sample is taken at `start` and the last one at `end`.
pub proof fn lemma_sample_ends(start: i32, end: i32)
    ensures
        sample_time(start, end, 0) == start,
        sample_time(start, end, 127) == end,
{
    lemma_blend_between(start as int, end as int, 0, 127);
    lemma_blend_between(start as int, end as int, 127, 127);
}

/// A chain of one level with a single keyframe has that keyframe's pose at
/// every time.
pub proof fn lemma_single_keyframe_constant(k: Keyframe, t: i32)
    ensures
        LevelView::of(seq![k]).control_points == seq![k],
        chain_transform(seq![LevelView::of(seq![k])], t) == k.pose(),
{
    lemma_normalized_single(k);
    let level = LevelView::of(seq![k]);
    lemma_stacked_single(level, t, Transform::unit());
    lemma_compose_unit(k.pose());
}

/// Changing rotation signs in a keyframe list changes the transform of its
/// chain at none of the keyframes' own times.
pub proof fn lemma_transform_ignores_signs(a: Seq<Keyframe>, b: Seq<Keyframe>, j: int)
    requires
        all_wf(a),
        all_wf(b),
        same_up_to_signs(a, b),
        0 <= j < a.len(),
    ensures
        chain_transform(seq![LevelView::of(b)], a[j].time) == chain_transform(
            seq![LevelView::of(a)],
            a[j].time,
        ),
{
    lemma_signs_do_not_show(a, b, j);
    lemma_stacked_single(LevelView::of(a), a[j].time, Transform::unit());
    lemma_stacked_single(LevelView::of(b), a[j].time, Transform::unit());
}

/// Stacking the points of the levels' own curves at time `t` gives the
/// transform of the chain at `t`.
pub proof fn lemma_stacked_own_points(
    levels: Seq<LevelView>,
    points: Seq<Keyframe>,
    t: i32,
    base: Transform,
)
    requires
        points.len() == levels.len(),
        forall|i: int| 0 <= i < levels.len() ==> points[i] == (#[trigger] levels[i]).point(t),
    ensures
        stacked_points(levels, points, base) == stacked(levels, t, base),
    decreases levels.len(),
{
    if levels.len() > 0 {
        let front = levels.drop_last();
        assert forall|i: int| 0 <= i < front.len() implies points.drop_last()[i] == (
        #[trigger] front[i]).point(t) by {
            assert(front[i] == levels[i]);
        }
        lemma_stacked_own_points(front, points.drop_last(), t, base);
        lemma_stacked_points_prefix(front, points, points.drop_last(), base);
        assert(points[levels.len() - 1] == levels[levels.len() - 1].point(t));
    }
}

/// Only the points of the levels that are there count.
proof fn lemma_stacked_points_prefix(
    levels: Seq<LevelView>,
    p: Seq<Keyframe>,
    q: Seq<Keyframe>,
    base: Transform,
)
    requires
        p.len() >= levels.len(),
        q.len() >= levels.len(),
        forall|i: int| 0 <= i < levels.len() ==> p[i] == q[i],
    ensures
        stacked_points(levels, p, base) == stacked_points(levels, q, base),
    decreases levels.len(),
{
    if levels.len() > 0 {
        lemma_stacked_points_prefix(levels.drop_last(), p, q, base);
    }
}

/// A single level stacked on a base multiplies the base by its pose.
pub proof fn lemma_stacked_single(level: LevelView, t: i32, base: Transform)
    ensures
        stacked(seq![level], t, base) == level.pose(t).composed(base),
{
    let chain = seq![level];
    assert(chain.drop_last() =~= Seq::<LevelView>::empty());
    assert(stacked(chain.drop_last(), t, base) == base);
    assert(chain.last() == level);
}

/// The transform of the chain `rhs + lhs`, which the product of `lhs` and
/// `rhs` holds, is the poses of the levels of `lhs` stacked on the transform
/// of `rhs`.
pub proof fn lemma_composed_transform(lhs: Seq<LevelView>, rhs: Seq<LevelView>, t: i32)
    ensures
        chain_transform(rhs + lhs, t) == stacked(lhs, t, chain_transform(rhs, t)),
    decreases lhs.len(),
{
    if lhs.len() == 0 {
        assert(rhs + lhs =~= rhs);
    } else {
        lemma_composed_transform(lhs.drop_last(), rhs, t);
        assert((rhs + lhs).drop_last() =~= rhs + lhs.drop_last());
        assert((rhs + lhs).last() == lhs.last());
    }
}

/// The product of two chains of one level each applies the pose of the
/// right-hand level first and the pose of the left-hand level after it.
pub proof fn lemma_composed_pair(lhs: LevelView, rhs: LevelView, t: i32)
    ensures
        chain_transform(seq![rhs] + seq![lhs], t) == lhs.pose(t).composed(rhs.pose(t)),
        chain_transform(seq![lhs], t) == lhs.pose(t),
        chain_transform(seq![rhs], t) == rhs.pose(t),
{
    lemma_composed_transform(seq![lhs], seq![rhs], t);
    lemma_stacked_single(lhs, t, Transform::unit());
    lemma_stacked_single(rhs, t, Transform::unit());
    lemma_stacked_single(lhs, t, chain_transform(seq![rhs], t));
    lemma_compose_unit(lhs.pose(t));
    lemma_compose_unit(rhs.pose(t));
}

impl View for AnimatedTransform {
    type V = Seq<LevelView>;

    closed spec fn view(&self) -> Seq<LevelView> {
        self.levels@.map_values(|level: Level| level@)
    }
}

impl Clone for AnimatedTransform {
    fn clone(&self) -> (r: AnimatedTransform)
        ensures
            r@ == self@,
    {
        let mut levels: Vec<Level> = Vec::new();
        let mut i: usize = 0;
        while i < self.levels.len()
            invariant
                i <= self.levels.len(),
                levels@.len() == i,
                forall|j: int| 0 <= j < i ==> (#[trigger] levels@[j])@ == self.levels@[j]@,
            decreases self.levels.len() - i,
        {
            levels.push(self.levels[i].clone());
            i = i + 1;
        }
        proof {
            use_type_invariant(self);
            assert(levels@.map_values(|level: Level| level@) =~= self@);
        }
        AnimatedTransform { levels }
    }
}

impl AnimatedTransform {
    /// Every level of every chain is well formed.
    #[verifier::type_invariant]
    spec fn inv(self) -> bool {
        chain_wf(self@)
    }

    /// Creates the chain without levels, which moves nothing.
    pub fn empty() -> (r: AnimatedTransform)
        ensures
            r@ == Seq::<LevelView>::empty(),
    {
        let levels: Vec<Level> = Vec::new();
        assert(levels@.map_values(|level: Level| level@) =~= Seq::<LevelView>::empty());
        AnimatedTransform { levels }
    }

    /// Creates a chain of one level that blends between the keyframes,
    /// which may come in any order.
    pub fn with_keyframes(keyframes: Vec<Keyframe>) -> (r: AnimatedTransform)
        requires
            keyframes@.len() > 0,
            all_wf(keyframes@),
        ensures
            r@ == seq![LevelView::of(keyframes@)],
            chain_wf(r@),
    {
        let level = Level::new(keyframes);
        let mut levels: Vec<Level> = Vec::new();
        levels.push(level);
        assert(levels@.map_values(|level: Level| level@) =~= seq![LevelView::of(keyframes@)]);
        AnimatedTransform { levels }
    }

    /// The levels of the chain, the object's own first.
    pub fn levels(&self) -> (levels: &Vec<Level>)
        ensures
            levels@.len() == self@.len(),
            forall|i: int| 0 <= i < levels@.len() ==> (#[trigger] levels@[i])@ == self@[i],
            chain_wf(self@),
    {
        proof {
            use_type_invariant(self);
        }
        &self.levels
    }

    /// Computes the transform of the chain at a time.
    pub fn transform(&self, time: i32) -> (t: Transform)
        ensures
            t == chain_transform(self@, time),
    {
        let mut running = Transform::identity();
        let mut i: usize = 0;
        while i < self.levels.len()
            invariant
                i <= self.levels.len(),
                running == stacked(self@.take(i as int), time, Transform::unit()),
            decreases self.levels.len() - i,
        {
            let level = &self.levels[i];
            assert(level@ == self@[i as int]);
            let pose = if level.control_points().len() == 1 {
                level.control_points()[0].transform()
            } else {
                level.point_at(time).transform()
            };
            proof {
                assert(self@.take(i + 1).drop_last() =~= self@.take(i as int));
                assert(self@.take(i + 1).last() == self@[i as int]);
            }
            running = pose.compose(&running);
            i = i + 1;
        }
        assert(self@.take(self.levels.len() as int) =~= self@);
        running
    }

    /// Computes the transform of the chain from points that the levels'
    /// curves were evaluated to elsewhere, one for each level. A level with
    /// a single keyframe takes that keyframe, whatever its point.
    pub fn transform_with(&self, points: &Vec<Keyframe>) -> (t: Transform)
        requires
            points@.len() == self@.len(),
        ensures
            t == stacked_points(self@, points@, Transform::unit()),
    {
        let mut running = Transform::identity();
        let mut i: usize = 0;
        while i < self.levels.len()
            invariant
                i <= self.levels.len(),
                points@.len() == self@.len(),
                running == stacked_points(self@.take(i as int), points@, Transform::unit()),
            decreases self.levels.len() - i,
        {
            let level = &self.levels[i];
            assert(level@ == self@[i as int]);
            let pose = if level.control_points().len() == 1 {
                level.control_points()[0].transform()
            } else {
                points[i].transform()
            };
            proof {
                assert(self@.take(i + 1).drop_last() =~= self@.take(i as int));
                assert(self@.take(i + 1).last() == self@[i as int]);
            }
            running = pose.compose(&running);
            i = i + 1;
        }
        assert(self@.take(self.levels.len() as int) =~= self@);
        running
    }

    /// Computes the bounds of a box that moves under the chain from `start`
    /// to `end`, by sampling.
    pub fn animation_bounds(&self, b: &BBox, start: i32, end: i32) -> (r: BBox)
        ensures
            r == chain_bounds(self@, *b, start, end),
            !chain_animated(self@) ==> r == chain_transform(self@, start).image_of_box(*b),
            chain_animated(self@) ==> forall|i: int|
                0 <= i < 128 ==> r.contains_box(#[trigger] sample_box(self@, *b, start, end, i)),
            chain_animated(self@) ==> r.contains_box(
                chain_transform(self@, start).image_of_box(*b),
            ),
            chain_animated(self@) ==> r.contains_box(
                chain_transform(self@, end).image_of_box(*b),
            ),
    {
        if !self.is_animated() {
            let t = self.transform(start);
            t.apply_box(b)
        } else {
            let mut ret = BBox::new();
            let mut i: u8 = 0;
            while i < SAMPLES
                invariant
                    i <= 128,
                    ret == sampled_bounds(self@, *b, start, end, i as nat),
                decreases 128 - i,
            {
                proof {
                    lemma_blend_between(start as int, end as int, i as int, 127);
                }
                let time = blend_scalar(start, end, i as i64, 127);
                let t = self.transform(time);
                ret = ret.box_union(&t.apply_box(b));
                i = i + 1;
            }
            proof {
                assert forall|j: int| 0 <= j < 128 implies ret.contains_box(
                    #[trigger] sample_box(self@, *b, start, end, j),
                ) by {
                    lemma_sampled_bounds_contain(self@, *b, start, end, 128, j);
                }
                lemma_sample_ends(start, end);
                assert(ret.contains_box(sample_box(self@, *b, start, end, 0)));
                assert(ret.contains_box(sample_box(self@, *b, start, end, 127)));
            }
            ret
        }
    }

    /// Whether the chain has a level and every level holds more than one
    /// keyframe.
    pub fn is_animated(&self) -> (animated: bool)
        ensures
            animated == chain_animated(self@),
    {
        if self.levels.len() == 0 {
            return false;
        }
        let mut i: usize = 0;
        while i < self.levels.len()
            invariant
                i <= self.levels.len(),
                forall|j: int| 0 <= j < i ==> (#[trigger] self@[j]).control_points.len() > 1,
            decreases self.levels.len() - i,
        {
            if self.levels[i].control_points().len() <= 1 {
                assert(self@[i as int].control_points.len() <= 1);
                return false;
            }
            i = i + 1;
        }
        true
    }
}

impl core::ops::Mul for AnimatedTransform {
    type Output = AnimatedTransform;

    /// Composes two chains: the levels of `rhs`, then those of `self`.
    fn mul(self, rhs: AnimatedTransform) -> (r: AnimatedTransform)
        ensures
            r@ == rhs@ + self@,
    {
        proof {
            use_type_invariant(&self);
            use_type_invariant(&rhs);
        }
        let mut levels = rhs.levels;
        let mut own = self.levels;
        levels.append(&mut own);
        assert(levels@.map_values(|level: Level| level@) =~= rhs@ + self@);
        AnimatedTransform { levels }
    }
}

impl vstd::std_specs::ops::MulSpecImpl for AnimatedTransform {
    /// A chain cannot be written down as a specification value, so the
    /// product is stated over views, in the `ensures` of `mul`, and not
    /// through `mul_spec`.
    open spec fn obeys_mul_spec() -> bool {
        false
    }

    /// Any two chains can be composed.
    open spec fn mul_req(self, rhs: AnimatedTransform) -> bool {
        true
    }

    /// Not used, as `obeys_mul_spec` is false.
    open spec fn mul_spec(self, rhs: AnimatedTransform) -> AnimatedTransform {
        rhs
    }
}

} // verus!
