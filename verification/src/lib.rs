//! Keyframe animation of affine transforms over fixed-point scalars.
//!
//! An [`animated::AnimatedTransform`] is a chain of levels, one for an
//! object and one for each of its ancestors. A level is built from keyframes
//! in any order: they are sorted by time, and rotation signs are corrected
//! so that blending never takes the long way round. The chain gives the
//! transform of the object at any time, and the bounds of a box that moves
//! under it over an interval.
//!
//! All scalars are fixed-point numbers with sixteen fractional bits, stored
//! in an `i32`. Results are exact up to one rounding, towards negative
//! infinity, and are clamped to the range of an `i32`; every contract states
//! the result to the last bit.

pub mod animated;
pub mod bbox;
pub mod fixed;
pub mod keyframe;
pub mod level;
pub mod normalize;
pub mod quaternion;
pub mod transform;
pub mod vector;
