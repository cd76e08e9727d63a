//! Keyframes: the pose of an object at one instant.

use vstd::prelude::*;
use crate::fixed::{blend, blend_scalar};
use crate::quaternion::{lemma_negated_axes, Quaternion};
use crate::transform::Transform;
use crate::vector::Vector;

verus! {

/// A pose with the time at which the object takes it.
#[derive(Clone, Copy, Debug, PartialEq, Eq, Structural)]
pub struct Keyframe {
    pub time: i32,
    pub translation: Vector,
    pub rotation: Quaternion,
    pub scale: Vector,
}

impl Keyframe {
    /// A keyframe is well formed when its rotation can be negated.
    pub open spec fn wf(self) -> bool {
        self.rotation.wf()
    }

    /// The pose as a transform: scale, then rotate, then translate.
    pub open spec fn pose(self) -> Transform {
        Transform::of_parts(self.translation, self.rotation, self.scale)
    }

    /// The same keyframe with the sign of its rotation changed.
    pub open spec fn flipped(self) -> Keyframe
        recommends
            self.wf(),
    {
        Keyframe { rotation: self.rotation.negated(), ..self }
    }

    /// Whether `other` is this keyframe, or this keyframe with the sign of
    /// its rotation changed.
    pub open spec fn same_up_to_sign(self, other: Keyframe) -> bool {
        other == self || other == self.flipped()
    }

    /// The keyframe a fraction `num / den` of the way from `self` to
    /// `other`: time, translation, rotation and scale are each blended
    /// component by component.
    pub open spec fn blended(self, other: Keyframe, num: int, den: int) -> Keyframe
        recommends
            0 <= num <= den,
            den > 0,
    {
        Keyframe {
            time: blend(self.time as int, other.time as int, num, den) as i32,
            translation: self.translation.blended(other.translation, num, den),
            rotation: self.rotation.blended(other.rotation, num, den),
            scale: self.scale.blended(other.scale, num, den),
        }
    }

    /// Creates a keyframe from its time and the three parts of its pose.
    pub fn new(time: i32, translation: Vector, rotation: Quaternion, scale: Vector) -> (k:
        Keyframe)
        ensures
            k == (Keyframe { time, translation, rotation, scale }),
    {
        Keyframe { time, translation, rotation, scale }
    }

    /// Whether the keyframe is well formed.
    pub fn is_wf(&self) -> (ok: bool)
        ensures
            ok == self.wf(),
    {
        self.rotation.is_wf()
    }

    /// Materializes the pose as a transform.
    pub fn transform(&self) -> (t: Transform)
        ensures
            t == self.pose(),
    {
        Transform::from_parts(&self.translation, &self.rotation, &self.scale)
    }

    /// The same keyframe with the sign of its rotation changed.
    pub fn flip(&self) -> (k: Keyframe)
        requires
            self.wf(),
        ensures
            k == self.flipped(),
            k.wf(),
    {
        Keyframe {
            time: self.time,
            translation: self.translation,
            rotation: self.rotation.neg(),
            scale: self.scale,
        }
    }

    /// Blends two keyframes component by component.
    pub fn interpolate(&self, other: &Keyframe, num: i64, den: i64) -> (k: Keyframe)
        requires
            0 <= num <= den,
            den > 0,
        ensures
            k == self.blended(*other, num as int, den as int),
            self.wf() && other.wf() ==> k.wf(),
    {
        Keyframe {
            time: blend_scalar(self.time, other.time, num, den),
            translation: self.translation.blend(&other.translation, num, den),
            rotation: self.rotation.blend(&other.rotation, num, den),
            scale: self.scale.blend(&other.scale, num, den),
        }
    }
}

/// Changing the sign of a keyframe's rotation does not change its pose.
pub proof fn lemma_flipped_pose(k: Keyframe)
    requires
        k.wf(),
    ensures
        k.flipped().pose() == k.pose(),
        k.flipped().wf(),
        k.flipped().flipped() == k,
{
    lemma_negated_axes(k.rotation);
}

/// Keyframes that differ in the sign of their rotation at most have the
/// same time and the same pose, and being so related is symmetric and
/// transitive.
pub proof fn lemma_same_up_to_sign(a: Keyframe, b: Keyframe, c: Keyframe)
    requires
        a.wf(),
        a.same_up_to_sign(b),
    ensures
        b.wf(),
        b.time == a.time,
        b.pose() == a.pose(),
        b.same_up_to_sign(a),
        b.same_up_to_sign(c) ==> a.same_up_to_sign(c),
{
    lemma_flipped_pose(a);
}

} // verus!
