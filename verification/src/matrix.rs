//! Homogeneous 4x4 fixed-point matrices: identity, per-axis rotations,
//! translation, the combined rotate-then-translate constructor, and the
//! perspective projection derived from a camera.
//!
//! Angles are carried as fixed-point sine/cosine pairs, so rotation and
//! accumulation stay inside exact integer arithmetic.  The rotation
//! templates leave their bottom row zero, as the projection and transform
//! routines expect; composition is the standard matrix product, each cell
//! rescaled by one unit and saturated.

use vstd::prelude::*;
use crate::fixed::{SCALE, tdiv, sat, inb, dot4, fx_div, fx_mul_div};
use crate::vector::{Vector3, bounded};
use crate::camera::Camera;

verus! {

/// An angle as its fixed-point sine and cosine, both clamped into one unit.
#[derive(Clone, Copy, PartialEq, Eq, Structural, Debug)]
pub struct Angle {
    pub sin: i64,
    pub cos: i64,
}

/// Clamping into the unit band `[-SCALE, SCALE]`, where every sine and
/// cosine lives.
pub open spec fn clamp_unit(x: int) -> int {
    if x > SCALE {
        SCALE as int
    } else if x < -(SCALE as int) {
        -(SCALE as int)
    } else {
        x
    }
}

/// Both trigonometric components lie in the unit band.
pub open spec fn angle_wf(a: Angle) -> bool {
    &&& -(SCALE as int) <= a.sin <= SCALE as int
    &&& -(SCALE as int) <= a.cos <= SCALE as int
}

/// The sum of two angles by the exact addition formulas, each component
/// rescaled, rounded toward zero and clamped back into the unit band.
pub open spec fn spec_angle_add(a: Angle, b: Angle) -> Angle {
    Angle {
        sin: clamp_unit(tdiv(a.sin * b.cos + a.cos * b.sin, SCALE as int)) as i64,
        cos: clamp_unit(tdiv(a.cos * b.cos - a.sin * b.sin, SCALE as int)) as i64,
    }
}

impl Angle {
    /// Builds an angle from raw components, clamping each into one unit.
    pub fn new(sin: i64, cos: i64) -> (r: Angle)
        ensures
            r.sin as int == clamp_unit(sin as int),
            r.cos as int == clamp_unit(cos as int),
            angle_wf(r),
    {
        Angle { sin: clamp_unit_exec(sin), cos: clamp_unit_exec(cos) }
    }

    /// The zero angle: sine zero, cosine one.
    pub fn zero() -> (r: Angle)
        ensures
            r.sin == 0,
            r.cos == SCALE,
            angle_wf(r),
    {
        Angle { sin: 0, cos: SCALE }
    }

    /// Accumulates another angle by the exact addition formulas.
    pub fn add(&self, other: &Angle) -> (r: Angle)
        requires
            angle_wf(*self),
            angle_wf(*other),
        ensures
            r == spec_angle_add(*self, *other),
            angle_wf(r),
    {
        proof {
            lemma_unit_products(*self, *other);
        }
        let s = (self.sin * other.cos + self.cos * other.sin) / SCALE;
        let c = (self.cos * other.cos - self.sin * other.sin) / SCALE;
        Angle { sin: clamp_unit_exec(s), cos: clamp_unit_exec(c) }
    }
}

/// Clamps a scalar into the unit band.
fn clamp_unit_exec(x: i64) -> (r: i64)
    ensures
        r as int == clamp_unit(x as int),
{
    if x > SCALE {
        SCALE
    } else if x < -SCALE {
        -SCALE
    } else {
        x
    }
}

/// Products of unit-band components stay small.
proof fn lemma_unit_products(a: Angle, b: Angle)
    requires
        angle_wf(a),
        angle_wf(b),
    ensures
        -0x100000000 <= a.sin * b.cos <= 0x100000000,
        -0x100000000 <= a.cos * b.sin <= 0x100000000,
        -0x100000000 <= a.cos * b.cos <= 0x100000000,
        -0x100000000 <= a.sin * b.sin <= 0x100000000,
{
    assert forall|p: int, q: int|
        -(SCALE as int) <= p <= SCALE as int && -(SCALE as int) <= q <= SCALE as int
            implies -0x100000000 <= #[trigger] (p * q) <= 0x100000000 by {
        assert(-0x100000000 <= p * q <= 0x100000000) by (nonlinear_arith)
            requires
                -65536 <= p <= 65536,
                -65536 <= q <= 65536;
    }
}

/// A 4x4 matrix of fixed-point cells, row by row.
#[derive(Clone, Copy, PartialEq, Eq, Structural, Debug)]
pub struct Matrix4 {
    pub c00: i64, pub c01: i64, pub c02: i64, pub c03: i64,
    pub c10: i64, pub c11: i64, pub c12: i64, pub c13: i64,
    pub c20: i64, pub c21: i64, pub c22: i64, pub c23: i64,
    pub c30: i64, pub c31: i64, pub c32: i64, pub c33: i64,
}

/// The cell in row `i`, column `j`.
pub open spec fn cell(m: Matrix4, i: int, j: int) -> int {
    if i == 0 {
        if j == 0 { m.c00 as int } else if j == 1 { m.c01 as int }
        else if j == 2 { m.c02 as int } else { m.c03 as int }
    } else if i == 1 {
        if j == 0 { m.c10 as int } else if j == 1 { m.c11 as int }
        else if j == 2 { m.c12 as int } else { m.c13 as int }
    } else if i == 2 {
        if j == 0 { m.c20 as int } else if j == 1 { m.c21 as int }
        else if j == 2 { m.c22 as int } else { m.c23 as int }
    } else {
        if j == 0 { m.c30 as int } else if j == 1 { m.c31 as int }
        else if j == 2 { m.c32 as int } else { m.c33 as int }
    }
}

/// Every cell lies in the saturation band.
pub open spec fn m_bounded(m: Matrix4) -> bool {
    &&& inb(m.c00 as int) && inb(m.c01 as int) && inb(m.c02 as int) && inb(m.c03 as int)
    &&& inb(m.c10 as int) && inb(m.c11 as int) && inb(m.c12 as int) && inb(m.c13 as int)
    &&& inb(m.c20 as int) && inb(m.c21 as int) && inb(m.c22 as int) && inb(m.c23 as int)
    &&& inb(m.c30 as int) && inb(m.c31 as int) && inb(m.c32 as int) && inb(m.c33 as int)
}

/// One cell of the matrix product: the row-by-column inner product,
/// rescaled by one unit, rounded toward zero and saturated.
pub open spec fn mm_cell(a: Matrix4, b: Matrix4, i: int, j: int) -> int {
    sat(tdiv(
        cell(a, i, 0) * cell(b, 0, j) + cell(a, i, 1) * cell(b, 1, j)
            + cell(a, i, 2) * cell(b, 2, j) + cell(a, i, 3) * cell(b, 3, j),
        SCALE as int,
    ))
}

/// The matrix product.
pub open spec fn spec_mm(a: Matrix4, b: Matrix4) -> Matrix4 {
    Matrix4 {
        c00: mm_cell(a, b, 0, 0) as i64, c01: mm_cell(a, b, 0, 1) as i64,
        c02: mm_cell(a, b, 0, 2) as i64, c03: mm_cell(a, b, 0, 3) as i64,
        c10: mm_cell(a, b, 1, 0) as i64, c11: mm_cell(a, b, 1, 1) as i64,
        c12: mm_cell(a, b, 1, 2) as i64, c13: mm_cell(a, b, 1, 3) as i64,
        c20: mm_cell(a, b, 2, 0) as i64, c21: mm_cell(a, b, 2, 1) as i64,
        c22: mm_cell(a, b, 2, 2) as i64, c23: mm_cell(a, b, 2, 3) as i64,
        c30: mm_cell(a, b, 3, 0) as i64, c31: mm_cell(a, b, 3, 1) as i64,
        c32: mm_cell(a, b, 3, 2) as i64, c33: mm_cell(a, b, 3, 3) as i64,
    }
}

/// One row of a point transform: the row applied to the homogeneous point
/// `(x, y, z, 1)`, rescaled by one unit, rounded toward zero and saturated.
pub open spec fn tp_row(m: Matrix4, i: int, x: int, y: int, z: int) -> int {
    sat(tdiv(
        cell(m, i, 0) * x + cell(m, i, 1) * y + cell(m, i, 2) * z + cell(m, i, 3) * SCALE,
        SCALE as int,
    ))
}

/// A transformed point: the three coordinate rows and the homogeneous
/// weight row.
pub open spec fn spec_transform(m: Matrix4, v: Vector3) -> (int, int, int, int) {
    (
        tp_row(m, 0, v.x as int, v.y as int, v.z as int),
        tp_row(m, 1, v.x as int, v.y as int, v.z as int),
        tp_row(m, 2, v.x as int, v.y as int, v.z as int),
        tp_row(m, 3, v.x as int, v.y as int, v.z as int),
    )
}

/// The identity matrix.
pub open spec fn spec_identity() -> Matrix4 {
    Matrix4 {
        c00: SCALE, c01: 0, c02: 0, c03: 0,
        c10: 0, c11: SCALE, c12: 0, c13: 0,
        c20: 0, c21: 0, c22: SCALE, c23: 0,
        c30: 0, c31: 0, c32: 0, c33: SCALE,
    }
}

/// Negation of a unit-band component.
pub open spec fn neg64(x: i64) -> i64 {
    (-(x as int)) as i64
}

/// The rotation template around the first axis; its bottom row is zero.
pub open spec fn spec_rot_x(t: Angle) -> Matrix4 {
    Matrix4 {
        c00: SCALE, c01: 0, c02: 0, c03: 0,
        c10: 0, c11: t.cos, c12: neg64(t.sin), c13: 0,
        c20: 0, c21: t.sin, c22: t.cos, c23: 0,
        c30: 0, c31: 0, c32: 0, c33: 0,
    }
}

/// The second rotation template; its bottom row is zero.
pub open spec fn spec_rot_y(t: Angle) -> Matrix4 {
    Matrix4 {
        c00: t.cos, c01: neg64(t.sin), c02: 0, c03: 0,
        c10: t.sin, c11: t.cos, c12: 0, c13: 0,
        c20: 0, c21: 0, c22: SCALE, c23: 0,
        c30: 0, c31: 0, c32: 0, c33: 0,
    }
}

/// The third rotation template; its bottom row is zero.
pub open spec fn spec_rot_z(t: Angle) -> Matrix4 {
    Matrix4 {
        c00: t.cos, c01: 0, c02: t.sin, c03: 0,
        c10: 0, c11: SCALE, c12: 0, c13: 0,
        c20: neg64(t.sin), c21: 0, c22: t.cos, c23: 0,
        c30: 0, c31: 0, c32: 0, c33: 0,
    }
}

/// The composed rotation, in the fixed order first-by-second-by-third.
pub open spec fn spec_rot(tx: Angle, ty: Angle, tz: Angle) -> Matrix4 {
    spec_mm(spec_mm(spec_rot_x(tx), spec_rot_y(ty)), spec_rot_z(tz))
}

/// The translation matrix: identity with the last column set.
pub open spec fn spec_translate(v: Vector3) -> Matrix4 {
    Matrix4 {
        c00: SCALE, c01: 0, c02: 0, c03: v.x,
        c10: 0, c11: SCALE, c12: 0, c13: v.y,
        c20: 0, c21: 0, c22: SCALE, c23: v.z,
        c30: 0, c31: 0, c32: 0, c33: SCALE,
    }
}

/// The composed rotation with its last column overwritten by the
/// translation and a unit homogeneous cell (not a matrix product: the
/// exact affine construction the projection chain expects, since the
/// rotation templates alone leave no weight row to carry the projection's
/// translation term through composition).
pub open spec fn spec_rot_and_translate(tx: Angle, ty: Angle, tz: Angle, v: Vector3) -> Matrix4 {
    let m = spec_rot(tx, ty, tz);
    Matrix4 { c03: v.x, c13: v.y, c23: v.z, c33: SCALE, ..m }
}

/// The perspective projection matrix of a camera with the given near and
/// far planes and field-of-view scale (the reciprocal tangent of half the
/// field of view).
pub open spec fn spec_project(near: i64, far: i64, s: i64) -> Matrix4 {
    Matrix4 {
        c00: s, c01: 0, c02: 0, c03: 0,
        c10: 0, c11: s, c12: 0, c13: 0,
        c20: 0, c21: 0,
        c22: sat(tdiv(far * SCALE, far - near)) as i64,
        c23: (-sat(tdiv(far * near, far - near))) as i64,
        c30: 0, c31: 0, c32: neg64(SCALE), c33: 0,
    }
}

impl Matrix4 {
    /// The identity matrix.
    pub fn identity() -> (r: Matrix4)
        ensures
            r == spec_identity(),
            m_bounded(r),
    {
        Matrix4 {
            c00: SCALE, c01: 0, c02: 0, c03: 0,
            c10: 0, c11: SCALE, c12: 0, c13: 0,
            c20: 0, c21: 0, c22: SCALE, c23: 0,
            c30: 0, c31: 0, c32: 0, c33: SCALE,
        }
    }

    /// Rotation around the first axis.
    pub fn rot_x(t: Angle) -> (r: Matrix4)
        requires
            angle_wf(t),
        ensures
            r == spec_rot_x(t),
            m_bounded(r),
    {
        Matrix4 {
            c00: SCALE, c01: 0, c02: 0, c03: 0,
            c10: 0, c11: t.cos, c12: -t.sin, c13: 0,
            c20: 0, c21: t.sin, c22: t.cos, c23: 0,
            c30: 0, c31: 0, c32: 0, c33: 0,
        }
    }

    /// Rotation around the second axis.
    pub fn rot_y(t: Angle) -> (r: Matrix4)
        requires
            angle_wf(t),
        ensures
            r == spec_rot_y(t),
            m_bounded(r),
    {
        Matrix4 {
            c00: t.cos, c01: -t.sin, c02: 0, c03: 0,
            c10: t.sin, c11: t.cos, c12: 0, c13: 0,
            c20: 0, c21: 0, c22: SCALE, c23: 0,
            c30: 0, c31: 0, c32: 0, c33: 0,
        }
    }

    /// Rotation around the third axis.
    pub fn rot_z(t: Angle) -> (r: Matrix4)
        requires
            angle_wf(t),
        ensures
            r == spec_rot_z(t),
            m_bounded(r),
    {
        Matrix4 {
            c00: t.cos, c01: 0, c02: t.sin, c03: 0,
            c10: 0, c11: SCALE, c12: 0, c13: 0,
            c20: -t.sin, c21: 0, c22: t.cos, c23: 0,
            c30: 0, c31: 0, c32: 0, c33: 0,
        }
    }

    /// The composed rotation, in the fixed order first-by-second-by-third.
    pub fn rot(tx: Angle, ty: Angle, tz: Angle) -> (r: Matrix4)
        requires
            angle_wf(tx),
            angle_wf(ty),
            angle_wf(tz),
        ensures
            r == spec_rot(tx, ty, tz),
            m_bounded(r),
    {
        let a = Matrix4::rot_x(tx);
        let b = Matrix4::rot_y(ty);
        let ab = a.multiply(&b);
        let c = Matrix4::rot_z(tz);
        ab.multiply(&c)
    }

    /// The translation matrix.
    pub fn translate(v: Vector3) -> (r: Matrix4)
        requires
            bounded(v),
        ensures
            r == spec_translate(v),
            m_bounded(r),
    {
        Matrix4 {
            c00: SCALE, c01: 0, c02: 0, c03: v.x,
            c10: 0, c11: SCALE, c12: 0, c13: v.y,
            c20: 0, c21: 0, c22: SCALE, c23: v.z,
            c30: 0, c31: 0, c32: 0, c33: SCALE,
        }
    }

    /// The composed rotation with the translation written into the last
    /// column and a unit homogeneous cell closing the affine form.
    pub fn rot_and_translate(tx: Angle, ty: Angle, tz: Angle, v: Vector3) -> (r: Matrix4)
        requires
            angle_wf(tx),
            angle_wf(ty),
            angle_wf(tz),
            bounded(v),
        ensures
            r == spec_rot_and_translate(tx, ty, tz, v),
            m_bounded(r),
    {
        let mut out = Matrix4::rot(tx, ty, tz);
        out.c03 = v.x;
        out.c13 = v.y;
        out.c23 = v.z;
        out.c33 = SCALE;
        out
    }

    /// The perspective projection matrix of a camera.
    pub fn project(cam: &Camera) -> (r: Matrix4)
        requires
            crate::camera::cam_wf(*cam),
            cam.far != cam.near,
        ensures
            r == spec_project(cam.near, cam.far, cam.fov_scale),
            m_bounded(r),
    {
        let d = cam.far - cam.near;
        let c22 = fx_div(cam.far, d);
        let c23 = -fx_mul_div(cam.far, cam.near, d);
        Matrix4 {
            c00: cam.fov_scale, c01: 0, c02: 0, c03: 0,
            c10: 0, c11: cam.fov_scale, c12: 0, c13: 0,
            c20: 0, c21: 0, c22: c22, c23: c23,
            c30: 0, c31: 0, c32: -SCALE, c33: 0,
        }
    }

    /// The matrix product, each cell rescaled by one unit and saturated.
    pub fn multiply(&self, other: &Matrix4) -> (r: Matrix4)
        requires
            m_bounded(*self),
            m_bounded(*other),
        ensures
            r == spec_mm(*self, *other),
            m_bounded(r),
    {
        Matrix4 {
            c00: dot4(self.c00, self.c01, self.c02, self.c03,
                other.c00, other.c10, other.c20, other.c30),
            c01: dot4(self.c00, self.c01, self.c02, self.c03,
                other.c01, other.c11, other.c21, other.c31),
            c02: dot4(self.c00, self.c01, self.c02, self.c03,
                other.c02, other.c12, other.c22, other.c32),
            c03: dot4(self.c00, self.c01, self.c02, self.c03,
                other.c03, other.c13, other.c23, other.c33),
            c10: dot4(self.c10, self.c11, self.c12, self.c13,
                other.c00, other.c10, other.c20, other.c30),
            c11: dot4(self.c10, self.c11, self.c12, self.c13,
                other.c01, other.c11, other.c21, other.c31),
            c12: dot4(self.c10, self.c11, self.c12, self.c13,
                other.c02, other.c12, other.c22, other.c32),
            c13: dot4(self.c10, self.c11, self.c12, self.c13,
                other.c03, other.c13, other.c23, other.c33),
            c20: dot4(self.c20, self.c21, self.c22, self.c23,
                other.c00, other.c10, other.c20, other.c30),
            c21: dot4(self.c20, self.c21, self.c22, self.c23,
                other.c01, other.c11, other.c21, other.c31),
            c22: dot4(self.c20, self.c21, self.c22, self.c23,
                other.c02, other.c12, other.c22, other.c32),
            c23: dot4(self.c20, self.c21, self.c22, self.c23,
                other.c03, other.c13, other.c23, other.c33),
            c30: dot4(self.c30, self.c31, self.c32, self.c33,
                other.c00, other.c10, other.c20, other.c30),
            c31: dot4(self.c30, self.c31, self.c32, self.c33,
                other.c01, other.c11, other.c21, other.c31),
            c32: dot4(self.c30, self.c31, self.c32, self.c33,
                other.c02, other.c12, other.c22, other.c32),
            c33: dot4(self.c30, self.c31, self.c32, self.c33,
                other.c03, other.c13, other.c23, other.c33),
        }
    }

    /// Applies the matrix to a point with implicit unit weight, returning
    /// the transformed point and its homogeneous weight.  The perspective
    /// divide is the caller's step.
    pub fn transform_point(&self, v: &Vector3) -> (r: (Vector3, i64))
        requires
            m_bounded(*self),
            bounded(*v),
        ensures
            ({
                let (px, py, pz, w) = spec_transform(*self, *v);
                &&& r.0.x as int == px
                &&& r.0.y as int == py
                &&& r.0.z as int == pz
                &&& r.1 as int == w
                &&& bounded(r.0)
            }),
    {
        let x = dot4(self.c00, self.c01, self.c02, self.c03, v.x, v.y, v.z, SCALE);
        let y = dot4(self.c10, self.c11, self.c12, self.c13, v.x, v.y, v.z, SCALE);
        let z = dot4(self.c20, self.c21, self.c22, self.c23, v.x, v.y, v.z, SCALE);
        let w = dot4(self.c30, self.c31, self.c32, self.c33, v.x, v.y, v.z, SCALE);
        (Vector3 { x, y, z }, w)
    }
}

} // verus!
