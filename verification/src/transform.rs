//! Affine transforms of space.

use vstd::prelude::*;
use vstd::arithmetic::div_mod::lemma_div_multiples_vanish;
use crate::bbox::BBox;
use crate::fixed::{floor_div, saturate, saturate_wide, wide_product, ONE};
use crate::quaternion::Quaternion;
use crate::vector::Vector;

verus! {

/// An affine map: the images of the three unit vectors, and the image of
/// the origin.
#[derive(Clone, Copy, Debug, PartialEq, Eq, Structural)]
pub struct Transform {
    pub x_axis: Vector,
    pub y_axis: Vector,
    pub z_axis: Vector,
    pub origin: Vector,
}

/// One coordinate of an affine image: the weighted sum of the three
/// coefficients, rounded down to a stored scalar, moved by `offset`.
pub open spec fn combined(a: i32, b: i32, c: i32, offset: i32, p: Vector) -> i32 {
    saturate((a * p.x + b * p.y + c * p.z) / (ONE as int) + offset) as i32
}

/// A vector with every component multiplied by the factor `s`.
pub open spec fn scaled(v: Vector, s: i32) -> Vector {
    Vector {
        x: saturate((v.x * s) / (ONE as int)) as i32,
        y: saturate((v.y * s) / (ONE as int)) as i32,
        z: saturate((v.z * s) / (ONE as int)) as i32,
    }
}

fn combine(a: i32, b: i32, c: i32, offset: i32, p: &Vector) -> (r: i32)
    ensures
        r == combined(a, b, c, offset, *p),
{
    let sum: i128 = wide_product(a, p.x) + wide_product(b, p.y) + wide_product(c, p.z);
    saturate_wide(floor_div(sum, 65536) + (offset as i128))
}

fn scale_vector(v: &Vector, s: i32) -> (r: Vector)
    ensures
        r == scaled(*v, s),
{
    Vector {
        x: saturate_wide(floor_div(wide_product(v.x, s), 65536)),
        y: saturate_wide(floor_div(wide_product(v.y, s), 65536)),
        z: saturate_wide(floor_div(wide_product(v.z, s), 65536)),
    }
}

impl Transform {
    /// The map that moves nothing.
    pub open spec fn unit() -> Transform {
        Transform {
            x_axis: Vector { x: ONE, y: 0, z: 0 },
            y_axis: Vector { x: 0, y: ONE, z: 0 },
            z_axis: Vector { x: 0, y: 0, z: ONE },
            origin: Vector { x: 0, y: 0, z: 0 },
        }
    }

    /// The image of a direction: the linear part alone.
    pub open spec fn image_of_vector(self, v: Vector) -> Vector {
        Vector {
            x: combined(self.x_axis.x, self.y_axis.x, self.z_axis.x, 0, v),
            y: combined(self.x_axis.y, self.y_axis.y, self.z_axis.y, 0, v),
            z: combined(self.x_axis.z, self.y_axis.z, self.z_axis.z, 0, v),
        }
    }

    /// The image of a point: the linear part, then the translation.
    pub open spec fn image_of_point(self, p: Vector) -> Vector {
        Vector {
            x: combined(self.x_axis.x, self.y_axis.x, self.z_axis.x, self.origin.x, p),
            y: combined(self.x_axis.y, self.y_axis.y, self.z_axis.y, self.origin.y, p),
            z: combined(self.x_axis.z, self.y_axis.z, self.z_axis.z, self.origin.z, p),
        }
    }

    /// The product `self * inner`: the map that applies `inner` first and
    /// `self` after it.
    pub open spec fn composed(self, inner: Transform) -> Transform {
        Transform {
            x_axis: self.image_of_vector(inner.x_axis),
            y_axis: self.image_of_vector(inner.y_axis),
            z_axis: self.image_of_vector(inner.z_axis),
            origin: self.image_of_point(inner.origin),
        }
    }

    /// The map that scales along the axes, then rotates, then translates.
    pub open spec fn of_parts(
        translation: Vector,
        rotation: Quaternion,
        scale: Vector,
    ) -> Transform {
        Transform {
            x_axis: scaled(rotation.rotated_x(), scale.x),
            y_axis: scaled(rotation.rotated_y(), scale.y),
            z_axis: scaled(rotation.rotated_z(), scale.z),
            origin: translation,
        }
    }

    /// The smallest box around the images of the first `n` corners of `b`.
    pub open spec fn hull(self, b: BBox, n: nat) -> BBox
        decreases n,
    {
        if n == 0 {
            BBox::empty()
        } else {
            self.hull(b, (n - 1) as nat).with_point(self.image_of_point(b.corner(n - 1)))
        }
    }

    /// The smallest box around the images of the eight corners of `b`.
    pub open spec fn image_of_box(self, b: BBox) -> BBox {
        self.hull(b, 8)
    }

    /// Creates the map that moves nothing.
    pub fn identity() -> (t: Transform)
        ensures
            t == Transform::unit(),
    {
        Transform {
            x_axis: Vector { x: ONE, y: 0, z: 0 },
            y_axis: Vector { x: 0, y: ONE, z: 0 },
            z_axis: Vector { x: 0, y: 0, z: ONE },
            origin: Vector { x: 0, y: 0, z: 0 },
        }
    }

    /// Creates the map that scales along the axes, then rotates, then
    /// translates.
    pub fn from_parts(
        translation: &Vector,
        rotation: &Quaternion,
        scale: &Vector,
    ) -> (t: Transform)
        ensures
            t == Transform::of_parts(*translation, *rotation, *scale),
    {
        let axes = rotation.axes();
        Transform {
            x_axis: scale_vector(&axes.0, scale.x),
            y_axis: scale_vector(&axes.1, scale.y),
            z_axis: scale_vector(&axes.2, scale.z),
            origin: *translation,
        }
    }

    /// Applies the linear part to a direction.
    pub fn apply_vector(&self, v: &Vector) -> (r: Vector)
        ensures
            r == self.image_of_vector(*v),
    {
        Vector {
            x: combine(self.x_axis.x, self.y_axis.x, self.z_axis.x, 0, v),
            y: combine(self.x_axis.y, self.y_axis.y, self.z_axis.y, 0, v),
            z: combine(self.x_axis.z, self.y_axis.z, self.z_axis.z, 0, v),
        }
    }

    /// Applies the map to a point.
    pub fn apply_point(&self, p: &Vector) -> (r: Vector)
        ensures
            r == self.image_of_point(*p),
    {
        Vector {
            x: combine(self.x_axis.x, self.y_axis.x, self.z_axis.x, self.origin.x, p),
            y: combine(self.x_axis.y, self.y_axis.y, self.z_axis.y, self.origin.y, p),
            z: combine(self.x_axis.z, self.y_axis.z, self.z_axis.z, self.origin.z, p),
        }
    }

    /// The product `self * inner`, which applies `inner` first.
    pub fn compose(&self, inner: &Transform) -> (t: Transform)
        ensures
            t == self.composed(*inner),
    {
        Transform {
            x_axis: self.apply_vector(&inner.x_axis),
            y_axis: self.apply_vector(&inner.y_axis),
            z_axis: self.apply_vector(&inner.z_axis),
            origin: self.apply_point(&inner.origin),
        }
    }

    /// The smallest box around the images of the eight corners of `b`.
    pub fn apply_box(&self, b: &BBox) -> (r: BBox)
        ensures
            r == self.image_of_box(*b),
    {
        let mut out = BBox::new();
        let mut i: u8 = 0;
        while i < 8
            invariant
                i <= 8,
                out == self.hull(*b, i as nat),
            decreases 8 - i,
        {
            let p = self.apply_point(&b.corner_at(i));
            out = out.point_union(&p);
            i = i + 1;
        }
        out
    }
}

/// A stored scalar times one is itself.
pub proof fn lemma_times_one(a: i32)
    ensures
        (a * ONE) / (ONE as int) == a,
        (ONE * a) / (ONE as int) == a,
{
    lemma_div_multiples_vanish(a as int, ONE as int);
    assert(a * ONE == ONE * a) by (nonlinear_arith);
}

/// Composing with the map that moves nothing, on either side, changes
/// nothing.
pub proof fn lemma_compose_unit(t: Transform)
    ensures
        t.composed(Transform::unit()) == t,
        Transform::unit().composed(t) == t,
{
    lemma_image_under_unit(t.x_axis);
    lemma_image_under_unit(t.y_axis);
    lemma_image_under_unit(t.z_axis);
    lemma_image_under_unit(t.origin);
    lemma_times_one(t.x_axis.x);
    lemma_times_one(t.x_axis.y);
    lemma_times_one(t.x_axis.z);
    lemma_times_one(t.y_axis.x);
    lemma_times_one(t.y_axis.y);
    lemma_times_one(t.y_axis.z);
    lemma_times_one(t.z_axis.x);
    lemma_times_one(t.z_axis.y);
    lemma_times_one(t.z_axis.z);
    let u = Transform::unit();
    assert(t.image_of_vector(u.x_axis) == t.x_axis);
    assert(t.image_of_vector(u.y_axis) == t.y_axis);
    assert(t.image_of_vector(u.z_axis) == t.z_axis);
    assert(t.image_of_point(u.origin) == t.origin);
}

/// The map that moves nothing leaves every point and direction in place.
pub proof fn lemma_image_under_unit(v: Vector)
    ensures
        Transform::unit().image_of_vector(v) == v,
        Transform::unit().image_of_point(v) == v,
{
    lemma_times_one(v.x);
    lemma_times_one(v.y);
    lemma_times_one(v.z);
}

} // verus!
