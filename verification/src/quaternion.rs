//! Rotations as quaternions of fixed-point scalars.

use vstd::prelude::*;
use vstd::arithmetic::div_mod::{lemma_fundamental_div_mod, lemma_mod_bound};
use crate::fixed::{
    blend, blend_scalar, floor_div, lemma_blend_between, saturate, saturate_wide, wide_product, ONE,
};
use crate::vector::Vector;

verus! {

/// A rotation. The quaternion need not have unit length: it stands for the
/// rotation of the unit quaternion in its direction, and `q` and `-q` stand
/// for the same rotation.
#[derive(Clone, Copy, Debug, PartialEq, Eq, Structural)]
pub struct Quaternion {
    pub w: i32,
    pub x: i32,
    pub y: i32,
    pub z: i32,
}

/// The stored scalar nearest to `num / den`, and zero where `den` is zero.
pub open spec fn ratio(num: int, den: int) -> int {
    if den == 0 {
        0
    } else {
        saturate(((ONE as int) * num) / den)
    }
}

fn ratio_scalar(num: i128, den: i128) -> (r: i32)
    requires
        den >= 0,
        -0x4_0000_0000_0000_0000 <= num <= 0x4_0000_0000_0000_0000,
    ensures
        r == ratio(num as int, den as int),
{
    if den == 0 {
        0
    } else {
        saturate_wide(floor_div(65536i128 * num, den))
    }
}

impl Quaternion {
    /// A quaternion can be negated when no component is the one scalar
    /// without a stored opposite.
    pub open spec fn wf(self) -> bool {
        self.w > i32::MIN && self.x > i32::MIN && self.y > i32::MIN && self.z > i32::MIN
    }

    /// The four-dimensional dot product, exact.
    pub open spec fn dot_product(self, other: Quaternion) -> int {
        self.w * other.w + self.x * other.x + self.y * other.y + self.z * other.z
    }

    /// The quaternion of opposite sign.
    pub open spec fn negated(self) -> Quaternion
        recommends
            self.wf(),
    {
        Quaternion {
            w: (-self.w) as i32,
            x: (-self.x) as i32,
            y: (-self.y) as i32,
            z: (-self.z) as i32,
        }
    }

    /// The quaternion a fraction `num / den` of the way from `self` to
    /// `other`, component by component.
    pub open spec fn blended(self, other: Quaternion, num: int, den: int) -> Quaternion
        recommends
            0 <= num <= den,
            den > 0,
    {
        Quaternion {
            w: blend(self.w as int, other.w as int, num, den) as i32,
            x: blend(self.x as int, other.x as int, num, den) as i32,
            y: blend(self.y as int, other.y as int, num, den) as i32,
            z: blend(self.z as int, other.z as int, num, den) as i32,
        }
    }

    /// The squared length, exact.
    pub open spec fn norm_squared(self) -> int {
        self.dot_product(self)
    }

    /// Where the rotation takes the unit vector along x.
    pub open spec fn rotated_x(self) -> Vector {
        let n = self.norm_squared();
        if n == 0 {
            Vector { x: ONE, y: 0, z: 0 }
        } else {
            Vector {
                x: ratio(
                    self.w * self.w + self.x * self.x - self.y * self.y - self.z * self.z,
                    n,
                ) as i32,
                y: ratio(2 * (self.x * self.y + self.w * self.z), n) as i32,
                z: ratio(2 * (self.x * self.z - self.w * self.y), n) as i32,
            }
        }
    }

    /// Where the rotation takes the unit vector along y.
    pub open spec fn rotated_y(self) -> Vector {
        let n = self.norm_squared();
        if n == 0 {
            Vector { x: 0, y: ONE, z: 0 }
        } else {
            Vector {
                x: ratio(2 * (self.x * self.y - self.w * self.z), n) as i32,
                y: ratio(
                    self.w * self.w - self.x * self.x + self.y * self.y - self.z * self.z,
                    n,
                ) as i32,
                z: ratio(2 * (self.y * self.z + self.w * self.x), n) as i32,
            }
        }
    }

    /// Where the rotation takes the unit vector along z.
    pub open spec fn rotated_z(self) -> Vector {
        let n = self.norm_squared();
        if n == 0 {
            Vector { x: 0, y: 0, z: ONE }
        } else {
            Vector {
                x: ratio(2 * (self.x * self.z + self.w * self.y), n) as i32,
                y: ratio(2 * (self.y * self.z - self.w * self.x), n) as i32,
                z: ratio(
                    self.w * self.w - self.x * self.x - self.y * self.y + self.z * self.z,
                    n,
                ) as i32,
            }
        }
    }

    /// The rotation that moves nothing.
    pub fn identity() -> (q: Quaternion)
        ensures
            q == (Quaternion { w: ONE, x: 0, y: 0, z: 0 }),
            q.wf(),
    {
        Quaternion { w: ONE, x: 0, y: 0, z: 0 }
    }

    /// Creates a quaternion from its real part and its three imaginary
    /// parts.
    pub fn new(w: i32, x: i32, y: i32, z: i32) -> (q: Quaternion)
        ensures
            q == (Quaternion { w, x, y, z }),
    {
        Quaternion { w, x, y, z }
    }

    /// Whether the quaternion can be negated.
    pub fn is_wf(&self) -> (ok: bool)
        ensures
            ok == self.wf(),
    {
        self.w > i32::MIN && self.x > i32::MIN && self.y > i32::MIN && self.z > i32::MIN
    }

    /// The dot product of two quaternions, with thirty-two fractional bits.
    pub fn dot(&self, other: &Quaternion) -> (d: i128)
        ensures
            d == self.dot_product(*other),
    {
        wide_product(self.w, other.w) + wide_product(self.x, other.x) + wide_product(
            self.y,
            other.y,
        ) + wide_product(self.z, other.z)
    }

    /// The same rotation with the opposite sign.
    pub fn neg(&self) -> (q: Quaternion)
        requires
            self.wf(),
        ensures
            q == self.negated(),
            q.wf(),
    {
        Quaternion { w: -self.w, x: -self.x, y: -self.y, z: -self.z }
    }

    /// Blends two quaternions component by component.
    pub fn blend(&self, other: &Quaternion, num: i64, den: i64) -> (q: Quaternion)
        requires
            0 <= num <= den,
            den > 0,
        ensures
            q == self.blended(*other, num as int, den as int),
            self.wf() && other.wf() ==> q.wf(),
    {
        proof {
            lemma_blend_between(self.w as int, other.w as int, num as int, den as int);
            lemma_blend_between(self.x as int, other.x as int, num as int, den as int);
            lemma_blend_between(self.y as int, other.y as int, num as int, den as int);
            lemma_blend_between(self.z as int, other.z as int, num as int, den as int);
        }
        Quaternion {
            w: blend_scalar(self.w, other.w, num, den),
            x: blend_scalar(self.x, other.x, num, den),
            y: blend_scalar(self.y, other.y, num, den),
            z: blend_scalar(self.z, other.z, num, den),
        }
    }

    /// The images of the three unit vectors under the rotation.
    pub fn axes(&self) -> (r: (Vector, Vector, Vector))
        ensures
            r.0 == self.rotated_x(),
            r.1 == self.rotated_y(),
            r.2 == self.rotated_z(),
            vector_within_one(r.0) && vector_within_one(r.1) && vector_within_one(r.2),
    {
        proof {
            lemma_axes_within_one(*self);
        }
        let ww: i128 = wide_product(self.w, self.w);
        let xx: i128 = wide_product(self.x, self.x);
        let yy: i128 = wide_product(self.y, self.y);
        let zz: i128 = wide_product(self.z, self.z);
        let xy: i128 = wide_product(self.x, self.y);
        let xz: i128 = wide_product(self.x, self.z);
        let yz: i128 = wide_product(self.y, self.z);
        let wx: i128 = wide_product(self.w, self.x);
        let wy: i128 = wide_product(self.w, self.y);
        let wz: i128 = wide_product(self.w, self.z);
        let n: i128 = ww + xx + yy + zz;
        assert(ww >= 0 && xx >= 0 && yy >= 0 && zz >= 0) by (nonlinear_arith)
            requires
                ww == self.w * self.w,
                xx == self.x * self.x,
                yy == self.y * self.y,
                zz == self.z * self.z,
        ;
        if n == 0 {
            (
                Vector { x: ONE, y: 0, z: 0 },
                Vector { x: 0, y: ONE, z: 0 },
                Vector { x: 0, y: 0, z: ONE },
            )
        } else {
            (
                Vector {
                    x: ratio_scalar(ww + xx - yy - zz, n),
                    y: ratio_scalar(2 * (xy + wz), n),
                    z: ratio_scalar(2 * (xz - wy), n),
                },
                Vector {
                    x: ratio_scalar(2 * (xy - wz), n),
                    y: ratio_scalar(ww - xx + yy - zz, n),
                    z: ratio_scalar(2 * (yz + wx), n),
                },
                Vector {
                    x: ratio_scalar(2 * (xz + wy), n),
                    y: ratio_scalar(2 * (yz - wx), n),
                    z: ratio_scalar(ww - xx - yy + zz, n),
                },
            )
        }
    }
}

/// A scalar with every bound of a rotation matrix entry: between minus one
/// and one.
pub open spec fn within_one(a: i32) -> bool {
    -ONE <= a <= ONE
}

/// A vector whose components all lie between minus one and one.
pub open spec fn vector_within_one(v: Vector) -> bool {
    within_one(v.x) && within_one(v.y) && within_one(v.z)
}

proof fn lemma_ratio_within_one(num: int, den: int)
    requires
        den > 0,
        -den <= num <= den,
    ensures
        -ONE <= ratio(num, den) <= ONE,
{
    let p = (ONE as int) * num;
    let q = p / den;
    let r = p % den;
    lemma_fundamental_div_mod(p, den);
    lemma_mod_bound(p, den);
    assert(-65536 <= q <= 65536) by (nonlinear_arith)
        requires
            p == 65536 * num,
            p == den * q + r,
            0 <= r < den,
            -den <= num <= den,
            den > 0,
    ;
}

proof fn lemma_product_bounds(a: int, b: int)
    ensures
        a * a >= 0,
        b * b >= 0,
        2 * (a * b) <= a * a + b * b,
        -2 * (a * b) <= a * a + b * b,
{
    assert(a * a >= 0 && b * b >= 0) by (nonlinear_arith);
    let d = a - b;
    let e = a + b;
    assert(d * d >= 0 && e * e >= 0) by (nonlinear_arith);
    assert(2 * (a * b) <= a * a + b * b) by (nonlinear_arith)
        requires
            d == a - b,
            d * d >= 0,
    ;
    assert(-2 * (a * b) <= a * a + b * b) by (nonlinear_arith)
        requires
            e == a + b,
            e * e >= 0,
    ;
}

/// A rotation takes the unit vectors to vectors with components between
/// minus one and one, whatever the length of the quaternion: no entry of a
/// rotation matrix is ever clamped.
pub proof fn lemma_axes_within_one(q: Quaternion)
    ensures
        vector_within_one(q.rotated_x()),
        vector_within_one(q.rotated_y()),
        vector_within_one(q.rotated_z()),
{
    let (w, x, y, z) = (q.w as int, q.x as int, q.y as int, q.z as int);
    let n = q.norm_squared();
    lemma_product_bounds(x, y);
    lemma_product_bounds(w, z);
    lemma_product_bounds(x, z);
    lemma_product_bounds(w, y);
    lemma_product_bounds(y, z);
    lemma_product_bounds(w, x);
    if n != 0 {
        lemma_ratio_within_one(w * w + x * x - y * y - z * z, n);
        lemma_ratio_within_one(2 * (x * y + w * z), n);
        lemma_ratio_within_one(2 * (x * z - w * y), n);
        lemma_ratio_within_one(2 * (x * y - w * z), n);
        lemma_ratio_within_one(w * w - x * x + y * y - z * z, n);
        lemma_ratio_within_one(2 * (y * z + w * x), n);
        lemma_ratio_within_one(2 * (x * z + w * y), n);
        lemma_ratio_within_one(2 * (y * z - w * x), n);
        lemma_ratio_within_one(w * w - x * x - y * y + z * z, n);
    }
}

/// Negating one factor negates the dot product.
pub proof fn lemma_dot_negated(a: Quaternion, b: Quaternion)
    requires
        b.wf(),
    ensures
        a.dot_product(b.negated()) == -a.dot_product(b),
{
    let n = b.negated();
    assert(a.w * n.w == -(a.w * b.w)) by (nonlinear_arith)
        requires
            n.w == -b.w,
    ;
    assert(a.x * n.x == -(a.x * b.x)) by (nonlinear_arith)
        requires
            n.x == -b.x,
    ;
    assert(a.y * n.y == -(a.y * b.y)) by (nonlinear_arith)
        requires
            n.y == -b.y,
    ;
    assert(a.z * n.z == -(a.z * b.z)) by (nonlinear_arith)
        requires
            n.z == -b.z,
    ;
}

/// A quaternion and its negation rotate the unit vectors alike.
pub proof fn lemma_negated_axes(q: Quaternion)
    requires
        q.wf(),
    ensures
        q.negated().rotated_x() == q.rotated_x(),
        q.negated().rotated_y() == q.rotated_y(),
        q.negated().rotated_z() == q.rotated_z(),
{
    let n = q.negated();
    lemma_product_of_opposites(q.w as int, q.w as int);
    lemma_product_of_opposites(q.x as int, q.x as int);
    lemma_product_of_opposites(q.y as int, q.y as int);
    lemma_product_of_opposites(q.z as int, q.z as int);
    lemma_product_of_opposites(q.x as int, q.y as int);
    lemma_product_of_opposites(q.x as int, q.z as int);
    lemma_product_of_opposites(q.y as int, q.z as int);
    lemma_product_of_opposites(q.w as int, q.x as int);
    lemma_product_of_opposites(q.w as int, q.y as int);
    lemma_product_of_opposites(q.w as int, q.z as int);
    assert(n.norm_squared() == q.norm_squared());
}

proof fn lemma_product_of_opposites(a: int, b: int)
    ensures
        (-a) * (-b) == a * b,
{
    assert((-a) * (-b) == a * b) by (nonlinear_arith);
}

} // verus!
