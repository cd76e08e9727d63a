//! Three-component vectors of fixed-point scalars.

use vstd::prelude::*;
use crate::fixed::{blend, blend_scalar};

verus! {

/// A point or a direction in space.
#[derive(Clone, Copy, Debug, PartialEq, Eq, Structural)]
pub struct Vector {
    pub x: i32,
    pub y: i32,
    pub z: i32,
}

/// The smaller of two scalars.
pub open spec fn lower(a: i32, b: i32) -> i32 {
    if a <= b {
        a
    } else {
        b
    }
}

/// The larger of two scalars.
pub open spec fn upper(a: i32, b: i32) -> i32 {
    if a >= b {
        a
    } else {
        b
    }
}

impl Vector {
    /// The vector a fraction `num / den` of the way from `self` to `other`,
    /// component by component.
    pub open spec fn blended(self, other: Vector, num: int, den: int) -> Vector
        recommends
            0 <= num <= den,
            den > 0,
    {
        Vector {
            x: blend(self.x as int, other.x as int, num, den) as i32,
            y: blend(self.y as int, other.y as int, num, den) as i32,
            z: blend(self.z as int, other.z as int, num, den) as i32,
        }
    }

    /// The componentwise minimum of two vectors.
    pub open spec fn lowest(self, other: Vector) -> Vector {
        Vector {
            x: lower(self.x, other.x),
            y: lower(self.y, other.y),
            z: lower(self.z, other.z),
        }
    }

    /// The componentwise maximum of two vectors.
    pub open spec fn highest(self, other: Vector) -> Vector {
        Vector {
            x: upper(self.x, other.x),
            y: upper(self.y, other.y),
            z: upper(self.z, other.z),
        }
    }

    /// Whether every component of `self` is at most that of `other`.
    pub open spec fn all_le(self, other: Vector) -> bool {
        self.x <= other.x && self.y <= other.y && self.z <= other.z
    }

    /// Creates a vector from its components.
    pub fn new(x: i32, y: i32, z: i32) -> (v: Vector)
        ensures
            v == (Vector { x, y, z }),
    {
        Vector { x, y, z }
    }

    /// Blends two vectors component by component.
    pub fn blend(&self, other: &Vector, num: i64, den: i64) -> (v: Vector)
        requires
            0 <= num <= den,
            den > 0,
        ensures
            v == self.blended(*other, num as int, den as int),
    {
        Vector {
            x: blend_scalar(self.x, other.x, num, den),
            y: blend_scalar(self.y, other.y, num, den),
            z: blend_scalar(self.z, other.z, num, den),
        }
    }

    /// The componentwise minimum.
    pub fn min(&self, other: &Vector) -> (v: Vector)
        ensures
            v == self.lowest(*other),
    {
        Vector {
            x: if self.x <= other.x { self.x } else { other.x },
            y: if self.y <= other.y { self.y } else { other.y },
            z: if self.z <= other.z { self.z } else { other.z },
        }
    }

    /// The componentwise maximum.
    pub fn max(&self, other: &Vector) -> (v: Vector)
        ensures
            v == self.highest(*other),
    {
        Vector {
            x: if self.x >= other.x { self.x } else { other.x },
            y: if self.y >= other.y { self.y } else { other.y },
            z: if self.z >= other.z { self.z } else { other.z },
        }
    }
}

} // verus!
