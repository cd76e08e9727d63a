//! Axis-aligned bounding boxes.

use vstd::prelude::*;
use crate::vector::Vector;

verus! {

/// An axis-aligned box, from its lowest to its highest corner. A box whose
/// lowest corner lies above its highest one holds no point.
#[derive(Clone, Copy, Debug, PartialEq, Eq, Structural)]
pub struct BBox {
    pub min: Vector,
    pub max: Vector,
}

impl BBox {
    /// The box that holds no point and leaves every union unchanged.
    pub open spec fn empty() -> BBox {
        BBox {
            min: Vector { x: i32::MAX, y: i32::MAX, z: i32::MAX },
            max: Vector { x: i32::MIN, y: i32::MIN, z: i32::MIN },
        }
    }

    /// The smallest box around two boxes.
    pub open spec fn joined(self, other: BBox) -> BBox {
        BBox { min: self.min.lowest(other.min), max: self.max.highest(other.max) }
    }

    /// The smallest box around a box and a point.
    pub open spec fn with_point(self, p: Vector) -> BBox {
        BBox { min: self.min.lowest(p), max: self.max.highest(p) }
    }

    /// Whether `other` lies inside `self`.
    pub open spec fn contains_box(self, other: BBox) -> bool {
        self.min.all_le(other.min) && other.max.all_le(self.max)
    }

    /// Whether the point lies inside `self`.
    pub open spec fn contains_point(self, p: Vector) -> bool {
        self.min.all_le(p) && p.all_le(self.max)
    }

    /// One of the eight corners: the bits of `i` choose, axis by axis,
    /// between the lowest and the highest coordinate.
    pub open spec fn corner(self, i: int) -> Vector {
        Vector {
            x: if i % 2 == 0 { self.min.x } else { self.max.x },
            y: if (i / 2) % 2 == 0 { self.min.y } else { self.max.y },
            z: if (i / 4) % 2 == 0 { self.min.z } else { self.max.z },
        }
    }

    /// Creates the empty box.
    pub fn new() -> (b: BBox)
        ensures
            b == BBox::empty(),
    {
        BBox {
            min: Vector { x: i32::MAX, y: i32::MAX, z: i32::MAX },
            max: Vector { x: i32::MIN, y: i32::MIN, z: i32::MIN },
        }
    }

    /// Creates the box between two corners.
    pub fn span(min: Vector, max: Vector) -> (b: BBox)
        ensures
            b == (BBox { min, max }),
    {
        BBox { min, max }
    }

    /// The smallest box around `self` and `other`.
    pub fn box_union(&self, other: &BBox) -> (b: BBox)
        ensures
            b == self.joined(*other),
            b.contains_box(*self),
            b.contains_box(*other),
    {
        BBox { min: self.min.min(&other.min), max: self.max.max(&other.max) }
    }

    /// The smallest box around `self` and the point `p`.
    pub fn point_union(&self, p: &Vector) -> (b: BBox)
        ensures
            b == self.with_point(*p),
            b.contains_box(*self),
            b.contains_point(*p),
    {
        BBox { min: self.min.min(p), max: self.max.max(p) }
    }

    /// The corner numbered `i`.
    pub fn corner_at(&self, i: u8) -> (p: Vector)
        requires
            i < 8,
        ensures
            p == self.corner(i as int),
    {
        Vector {
            x: if i % 2 == 0 { self.min.x } else { self.max.x },
            y: if (i / 2) % 2 == 0 { self.min.y } else { self.max.y },
            z: if (i / 4) % 2 == 0 { self.min.z } else { self.max.z },
        }
    }
}

} // verus!
