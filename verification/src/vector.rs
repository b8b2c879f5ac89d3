//! Three-component fixed-point vectors: arithmetic, dot and cross products,
//! length, normalization, and an orthonormal-basis helper.
//!
//! Every operation is stated exactly over the integer model in `fixed`:
//! a result component is the mathematical value, rounded toward zero where
//! a product or quotient rescales, and saturated into `[-LIM, LIM]`.

use vstd::prelude::*;
use crate::fixed::{
    SCALE, LIM, tdiv, sat, sqrt_floor, fx_mul, fx_div, sat_narrow, isqrt,
};

verus! {

#[derive(Clone, Copy, PartialEq, Eq, Structural, Debug)]
pub struct Vector3 {
    pub x: i64,
    pub y: i64,
    pub z: i64,
}

/// All three components lie in the saturation band, as every vector
/// produced by this crate's operations does.
pub open spec fn bounded(v: Vector3) -> bool {
    &&& -(LIM as int) <= v.x <= LIM as int
    &&& -(LIM as int) <= v.y <= LIM as int
    &&& -(LIM as int) <= v.z <= LIM as int
}

/// The fixed-point dot product of two component triples.
pub open spec fn dot3(ax: int, ay: int, az: int, bx: int, by: int, bz: int) -> int {
    sat(tdiv(ax * bx + ay * by + az * bz, SCALE as int))
}

/// The fixed-point cross product of two component triples.
pub open spec fn cross3(ax: int, ay: int, az: int, bx: int, by: int, bz: int) -> (int, int, int) {
    (
        sat(tdiv(ay * bz - az * by, SCALE as int)),
        sat(tdiv(az * bx - ax * bz, SCALE as int)),
        sat(tdiv(ax * by - ay * bx, SCALE as int)),
    )
}

/// The exact (unscaled) sum of squared components.
pub open spec fn sqsum3(x: int, y: int, z: int) -> int {
    x * x + y * y + z * z
}

/// The fixed-point length of a component triple: since the squared
/// components carry two scale factors, the integer square root of their
/// plain sum is again a scaled scalar.
pub open spec fn len3(x: int, y: int, z: int) -> int {
    sat(sqrt_floor(sqsum3(x, y, z) as nat) as int)
}

/// The fixed-point unit vector of a component triple: each component
/// rescaled by one unit and divided by the length.
pub open spec fn norm3(x: int, y: int, z: int) -> (int, int, int) {
    let l = len3(x, y, z);
    (sat(tdiv(x * SCALE, l)), sat(tdiv(y * SCALE, l)), sat(tdiv(z * SCALE, l)))
}

/// The first tangent of the orthonormal basis around a vector: a vector
/// orthogonal to it in exact arithmetic, chosen by the larger of the first
/// two components, then normalized.
pub open spec fn tangent3(v: Vector3) -> (int, int, int) {
    if abs1(v.y as int) < abs1(v.x as int) {
        norm3(v.z as int, 0, -(v.x as int))
    } else {
        norm3(0, v.z as int, -(v.y as int))
    }
}

/// Magnitude of an integer.
pub open spec fn abs1(x: int) -> int {
    if x < 0 {
        -x
    } else {
        x
    }
}

/// The view of a vector as its component triple.
pub open spec fn view3(v: Vector3) -> (int, int, int) {
    (v.x as int, v.y as int, v.z as int)
}

impl Vector3 {
    /// Builds a vector, saturating each component into the working band.
    pub fn new(x: i64, y: i64, z: i64) -> (r: Vector3)
        ensures
            r.x as int == sat(x as int),
            r.y as int == sat(y as int),
            r.z as int == sat(z as int),
            bounded(r),
    {
        Vector3 {
            x: sat_narrow(x as i128),
            y: sat_narrow(y as i128),
            z: sat_narrow(z as i128),
        }
    }

    /// The components as a plain triple.
    pub fn tuple(&self) -> (r: (i64, i64, i64))
        ensures
            r == (self.x, self.y, self.z),
    {
        (self.x, self.y, self.z)
    }

    /// The zero vector.
    pub fn zero() -> (r: Vector3)
        ensures
            r.x == 0 && r.y == 0 && r.z == 0,
            bounded(r),
    {
        Vector3 { x: 0, y: 0, z: 0 }
    }

    /// A vector with the same (saturated) value in all three components.
    pub fn from_one(v: i64) -> (r: Vector3)
        ensures
            r.x as int == sat(v as int),
            r.y == r.x && r.z == r.x,
            bounded(r),
    {
        let s = sat_narrow(v as i128);
        Vector3 { x: s, y: s, z: s }
    }

    /// Componentwise sum, saturated.
    pub fn add(&self, other: &Vector3) -> (r: Vector3)
        requires
            bounded(*self),
            bounded(*other),
        ensures
            r.x as int == sat(self.x + other.x),
            r.y as int == sat(self.y + other.y),
            r.z as int == sat(self.z + other.z),
            bounded(r),
    {
        Vector3 {
            x: sat_narrow(self.x as i128 + other.x as i128),
            y: sat_narrow(self.y as i128 + other.y as i128),
            z: sat_narrow(self.z as i128 + other.z as i128),
        }
    }

    /// Componentwise difference, saturated.
    pub fn sub(&self, other: &Vector3) -> (r: Vector3)
        requires
            bounded(*self),
            bounded(*other),
        ensures
            r.x as int == sat(self.x - other.x),
            r.y as int == sat(self.y - other.y),
            r.z as int == sat(self.z - other.z),
            bounded(r),
    {
        Vector3 {
            x: sat_narrow(self.x as i128 - other.x as i128),
            y: sat_narrow(self.y as i128 - other.y as i128),
            z: sat_narrow(self.z as i128 - other.z as i128),
        }
    }

    /// Componentwise negation.
    pub fn neg(&self) -> (r: Vector3)
        requires
            bounded(*self),
        ensures
            r.x as int == -(self.x as int),
            r.y as int == -(self.y as int),
            r.z as int == -(self.z as int),
            bounded(r),
    {
        Vector3 { x: -self.x, y: -self.y, z: -self.z }
    }

    /// Scaling by a fixed-point scalar, each component rescaled and saturated.
    pub fn scale(&self, k: i64) -> (r: Vector3)
        ensures
            r.x as int == sat(tdiv(self.x * k, SCALE as int)),
            r.y as int == sat(tdiv(self.y * k, SCALE as int)),
            r.z as int == sat(tdiv(self.z * k, SCALE as int)),
            bounded(r),
    {
        Vector3 { x: fx_mul(self.x, k), y: fx_mul(self.y, k), z: fx_mul(self.z, k) }
    }

    /// Division by a fixed-point scalar, each component rescaled and saturated.
    pub fn div_by(&self, k: i64) -> (r: Vector3)
        requires
            k != 0,
        ensures
            r.x as int == sat(tdiv(self.x * SCALE, k as int)),
            r.y as int == sat(tdiv(self.y * SCALE, k as int)),
            r.z as int == sat(tdiv(self.z * SCALE, k as int)),
            bounded(r),
    {
        Vector3 { x: fx_div(self.x, k), y: fx_div(self.y, k), z: fx_div(self.z, k) }
    }

    /// The dot product.
    pub fn dot(&self, other: &Vector3) -> (r: i64)
        requires
            bounded(*self),
            bounded(*other),
        ensures
            r as int == dot3(
                self.x as int, self.y as int, self.z as int,
                other.x as int, other.y as int, other.z as int,
            ),
    {
        proof {
            lemma_bounded_products(*self, *other);
        }
        let p: i128 = (self.x as i128) * (other.x as i128) + (self.y as i128) * (other.y as i128)
            + (self.z as i128) * (other.z as i128);
        let q: i128 = p / (SCALE as i128);
        sat_narrow(q)
    }

    /// The cross product.
    pub fn cross(&self, other: &Vector3) -> (r: Vector3)
        requires
            bounded(*self),
            bounded(*other),
        ensures
            view3(r) == cross3(
                self.x as int, self.y as int, self.z as int,
                other.x as int, other.y as int, other.z as int,
            ),
            bounded(r),
    {
        proof {
            lemma_bounded_products(*self, *other);
        }
        let cx: i128 = (self.y as i128) * (other.z as i128) - (self.z as i128) * (other.y as i128);
        let cy: i128 = (self.z as i128) * (other.x as i128) - (self.x as i128) * (other.z as i128);
        let cz: i128 = (self.x as i128) * (other.y as i128) - (self.y as i128) * (other.x as i128);
        Vector3 {
            x: sat_narrow(cx / (SCALE as i128)),
            y: sat_narrow(cy / (SCALE as i128)),
            z: sat_narrow(cz / (SCALE as i128)),
        }
    }

    /// The squared length as a fixed-point scalar (rescaled by one unit).
    pub fn norm(&self) -> (r: i64)
        requires
            bounded(*self),
        ensures
            r as int == sat(tdiv(sqsum3(self.x as int, self.y as int, self.z as int), SCALE as int)),
    {
        proof {
            lemma_bounded_products(*self, *self);
        }
        let p: i128 = (self.x as i128) * (self.x as i128) + (self.y as i128) * (self.y as i128)
            + (self.z as i128) * (self.z as i128);
        let q: i128 = p / (SCALE as i128);
        sat_narrow(q)
    }

    /// The length: the integer square root of the plain sum of squares.
    pub fn length(&self) -> (r: i64)
        requires
            bounded(*self),
        ensures
            r as int == len3(self.x as int, self.y as int, self.z as int),
            r >= 0,
    {
        proof {
            lemma_bounded_products(*self, *self);
            lemma_squares_nonneg(self.x as int, self.y as int, self.z as int);
        }
        let p: i128 = (self.x as i128) * (self.x as i128) + (self.y as i128) * (self.y as i128)
            + (self.z as i128) * (self.z as i128);
        let r = isqrt(p as u128);
        sat_narrow(r as i128)
    }

    /// The unit vector with this vector's direction.
    pub fn normalize(&self) -> (r: Vector3)
        requires
            bounded(*self),
            !(self.x == 0 && self.y == 0 && self.z == 0),
        ensures
            view3(r) == norm3(self.x as int, self.y as int, self.z as int),
            bounded(r),
    {
        let l = self.length();
        proof {
            lemma_nonzero_length(*self);
        }
        Vector3 { x: fx_div(self.x, l), y: fx_div(self.y, l), z: fx_div(self.z, l) }
    }

    /// Two vectors completing this one to a basis: a normalized tangent
    /// orthogonal to it (chosen by the larger of the first two components)
    /// and their cross product.
    pub fn coord_system(&self) -> (r: (Vector3, Vector3))
        requires
            bounded(*self),
            !(self.x == 0 && self.y == 0 && self.z == 0),
        ensures
            view3(r.0) == tangent3(*self),
            view3(r.1) == cross3(
                self.x as int, self.y as int, self.z as int,
                r.0.x as int, r.0.y as int, r.0.z as int,
            ),
            bounded(r.0),
            bounded(r.1),
    {
        let ax = if self.x < 0 { -self.x } else { self.x };
        let ay = if self.y < 0 { -self.y } else { self.y };
        let nt = if ay < ax {
            let w = Vector3 { x: self.z, y: 0, z: -self.x };
            w.normalize()
        } else {
            let w = Vector3 { x: 0, y: self.z, z: -self.y };
            w.normalize()
        };
        let nb = self.cross(&nt);
        (nt, nb)
    }

    /// The outward normal of the triangle `(a, b, c)`: the normalized cross
    /// product of its two edges out of `a`.
    pub fn normal_of(a: &Vector3, b: &Vector3, c: &Vector3) -> (r: Vector3)
        requires
            bounded(*a),
            bounded(*b),
            bounded(*c),
            normal_defined(*a, *b, *c),
        ensures
            view3(r) == normal_of3(*a, *b, *c),
            bounded(r),
    {
        let e1 = b.sub(a);
        let e2 = c.sub(a);
        let n = e1.cross(&e2);
        n.normalize()
    }
}

/// The (unnormalized) cross product of the two edges of triangle `(a, b, c)`
/// out of `a`.
pub open spec fn edge_cross3(a: Vector3, b: Vector3, c: Vector3) -> (int, int, int) {
    cross3(
        sat(b.x - a.x), sat(b.y - a.y), sat(b.z - a.z),
        sat(c.x - a.x), sat(c.y - a.y), sat(c.z - a.z),
    )
}

/// The triangle `(a, b, c)` spans a plane: its edge cross product is nonzero,
/// so its normal is defined.
pub open spec fn normal_defined(a: Vector3, b: Vector3, c: Vector3) -> bool {
    edge_cross3(a, b, c) != (0int, 0int, 0int)
}

/// The normal of the triangle `(a, b, c)`.
pub open spec fn normal_of3(a: Vector3, b: Vector3, c: Vector3) -> (int, int, int) {
    let (nx, ny, nz) = edge_cross3(a, b, c);
    norm3(nx, ny, nz)
}

/// Products of components in the working band stay far inside the exact
/// 128-bit range.
proof fn lemma_bounded_products(a: Vector3, b: Vector3)
    requires
        bounded(a),
        bounded(b),
    ensures
        -0x100000000000000000000000 <= a.x * b.x <= 0x100000000000000000000000,
        -0x100000000000000000000000 <= a.y * b.y <= 0x100000000000000000000000,
        -0x100000000000000000000000 <= a.z * b.z <= 0x100000000000000000000000,
        -0x100000000000000000000000 <= a.y * b.z <= 0x100000000000000000000000,
        -0x100000000000000000000000 <= a.z * b.y <= 0x100000000000000000000000,
        -0x100000000000000000000000 <= a.z * b.x <= 0x100000000000000000000000,
        -0x100000000000000000000000 <= a.x * b.z <= 0x100000000000000000000000,
        -0x100000000000000000000000 <= a.x * b.y <= 0x100000000000000000000000,
        -0x100000000000000000000000 <= a.y * b.x <= 0x100000000000000000000000,
{
    assert forall|p: int, q: int|
        -(LIM as int) <= p <= LIM as int && -(LIM as int) <= q <= LIM as int
            implies -0x100000000000000000000000 <= #[trigger] (p * q) <= 0x100000000000000000000000 by {
        assert(-0x100000000000000000000000 <= p * q <= 0x100000000000000000000000)
            by (nonlinear_arith)
            requires
                -0x100000000000 <= p <= 0x100000000000,
                -0x100000000000 <= q <= 0x100000000000;
    }
}

/// Squares are nonnegative, so a sum of squares is.
proof fn lemma_squares_nonneg(x: int, y: int, z: int)
    ensures
        x * x >= 0,
        y * y >= 0,
        z * z >= 0,
{
    assert(x * x >= 0) by (nonlinear_arith);
    assert(y * y >= 0) by (nonlinear_arith);
    assert(z * z >= 0) by (nonlinear_arith);
}

/// A vector with a nonzero component has squared length at least one, so
/// its integer length is positive.
pub proof fn lemma_nonzero_length(v: Vector3)
    requires
        !(v.x == 0 && v.y == 0 && v.z == 0),
    ensures
        sqsum3(v.x as int, v.y as int, v.z as int) >= 1,
        len3(v.x as int, v.y as int, v.z as int) >= 1,
{
    lemma_squares_nonneg(v.x as int, v.y as int, v.z as int);
    if v.x != 0 {
        assert(v.x * v.x >= 1) by (nonlinear_arith)
            requires v.x != 0;
    } else if v.y != 0 {
        assert(v.y * v.y >= 1) by (nonlinear_arith)
            requires v.y != 0;
    } else {
        assert(v.z * v.z >= 1) by (nonlinear_arith)
            requires v.z != 0;
    }
    let q = sqsum3(v.x as int, v.y as int, v.z as int) as nat;
    crate::fixed::lemma_sqrt_floor_correct(q);
    if sqrt_floor(q) == 0 {
        assert((sqrt_floor(q) + 1) * (sqrt_floor(q) + 1) == 1) by (nonlinear_arith)
            requires sqrt_floor(q) == 0;
    }
}

} // verus!
