//! The laws of the pipeline, proved once and for all: a normalized vector
//! has unit length within the rounding, the basis around a vector is
//! orthogonal to it within the rounding, rotation by the zero angle is the
//! identity, the identity transform returns a point unchanged with unit
//! weight, an on-axis point projects to the exact screen center, the depth
//! test is order-independent, swapping a triangle's winding either way
//! fills the same pixels at the same depths, and the depth buffer only
//! ever descends.

use vstd::prelude::*;
use crate::fixed::{SCALE, LIM, tdiv, sat, lemma_tdiv_exact};
use crate::vector::{Vector3, abs1};
use crate::matrix::{
    Matrix4, Angle, spec_rot_x, spec_rot, spec_mm, spec_identity, spec_transform, spec_project,
    cell,
};
use crate::renderer::{
    pix_pass, pix_depth, pass_at, depth_at, zb_after, zb_fold, spec_proj_vert, half_span, area3,
    ProjVert,
};

verus! {

/// The zero angle, the fixed-point value of angle zero.
pub open spec fn zero_angle() -> Angle {
    Angle { sin: 0, cos: SCALE }
}

/// Two matrices agree everywhere above the bottom row.
pub open spec fn eq_upper(a: Matrix4, b: Matrix4) -> bool {
    forall|i: int, j: int| 0 <= i < 3 && 0 <= j < 4 ==> #[trigger] cell(a, i, j) == cell(b, i, j)
}

/// Rescaling one unit by one unit loses nothing.
proof fn lemma_unit_cell(x: int)
    requires
        -(LIM as int) <= x <= LIM as int,
    ensures
        sat(tdiv(x * SCALE, SCALE as int)) == x,
        sat(tdiv(SCALE * x, SCALE as int)) == x,
{
    lemma_tdiv_exact(x, SCALE as int);
    assert(x * SCALE == SCALE * x) by (nonlinear_arith);
}

/// Rotation by the zero angle around the first axis is the identity, up to
/// the rotation templates' zero bottom row.
pub proof fn lemma_rot_x_zero_is_identity()
    ensures
        eq_upper(spec_rot_x(zero_angle()), spec_identity()),
{
}

/// The composed rotation of three zero angles is the identity, up to the
/// rotation templates' zero bottom row.
pub proof fn lemma_rot_zero_is_identity()
    ensures
        eq_upper(spec_rot(zero_angle(), zero_angle(), zero_angle()), spec_identity()),
{
    let z = zero_angle();
    let rx = spec_rot_x(z);
    let ry = crate::matrix::spec_rot_y(z);
    let rz = crate::matrix::spec_rot_z(z);
    let m1 = spec_mm(rx, ry);
    lemma_unit_cell(SCALE as int);
    lemma_unit_cell(0);
    assert forall|i: int, j: int| 0 <= i < 3 && 0 <= j < 4
        implies #[trigger] cell(m1, i, j) == cell(rx, i, j) by {
        lemma_mm_by_zero_rot(rx, i, j);
    }
    let m2 = spec_mm(m1, rz);
    assert forall|i: int, j: int| 0 <= i < 3 && 0 <= j < 4
        implies #[trigger] cell(m2, i, j) == cell(m1, i, j) by {
        lemma_mm_by_zero_rot(m1, i, j);
    }
}

/// Multiplying on the right by a zero-angle rotation template keeps every
/// upper cell: the template is the identity on the first three columns.
proof fn lemma_mm_by_zero_rot(a: Matrix4, i: int, j: int)
    requires
        0 <= i < 4,
        0 <= j < 4,
        forall|i2: int, j2: int|
            0 <= i2 < 4 && 0 <= j2 < 4 ==> -(LIM as int) <= #[trigger] cell(a, i2, j2) <= LIM as int,
        cell(a, i, 3) == 0 || j < 3,
    ensures
        j < 3 ==> crate::matrix::mm_cell(a, spec_rot_x(zero_angle()), i, j) == cell(a, i, j),
        j < 3 ==> crate::matrix::mm_cell(a, crate::matrix::spec_rot_y(zero_angle()), i, j)
            == cell(a, i, j),
        j < 3 ==> crate::matrix::mm_cell(a, crate::matrix::spec_rot_z(zero_angle()), i, j)
            == cell(a, i, j),
        j == 3 && cell(a, i, 3) == 0 ==> crate::matrix::mm_cell(a, spec_rot_x(zero_angle()), i, j)
            == 0,
        j == 3 && cell(a, i, 3) == 0 ==> crate::matrix::mm_cell(a,
            crate::matrix::spec_rot_y(zero_angle()), i, j) == 0,
        j == 3 && cell(a, i, 3) == 0 ==> crate::matrix::mm_cell(a,
            crate::matrix::spec_rot_z(zero_angle()), i, j) == 0,
{
    lemma_unit_cell(cell(a, i, 0));
    lemma_unit_cell(cell(a, i, 1));
    lemma_unit_cell(cell(a, i, 2));
    lemma_unit_cell(cell(a, i, 3));
    assert(cell(a, i, 0) * 0 == 0) by (nonlinear_arith);
    assert(cell(a, i, 1) * 0 == 0) by (nonlinear_arith);
    assert(cell(a, i, 2) * 0 == 0) by (nonlinear_arith);
    assert(cell(a, i, 3) * 0 == 0) by (nonlinear_arith);
    lemma_tdiv_exact(0, SCALE as int);
}

/// Transforming a point by the identity returns the point unchanged, with
/// unit weight.
pub proof fn lemma_identity_transform(v: Vector3)
    requires
        crate::vector::bounded(v),
    ensures
        spec_transform(spec_identity(), v)
            == (v.x as int, v.y as int, v.z as int, SCALE as int),
{
    lemma_unit_cell(v.x as int);
    lemma_unit_cell(v.y as int);
    lemma_unit_cell(v.z as int);
    lemma_unit_cell(SCALE as int);
    assert(v.x * 0 == 0 && v.y * 0 == 0 && v.z * 0 == 0) by (nonlinear_arith);
}

/// A camera-space point straight ahead on the optical axis, at any nonzero
/// depth (in particular midway between the near and far planes), projects
/// to the exact center of the image.
pub proof fn lemma_projection_center(
    near: i64, far: i64, s: i64, width: u32, height: u32, z: i64,
)
    requires
        z != 0,
        -(LIM as int) <= z <= LIM as int,
        width <= 0x100000,
        height <= 0x100000,
    ensures
        ({
            let p = spec_proj_vert(
                spec_project(near, far, s), spec_identity(), width as int, height as int,
                Vector3 { x: 0, y: 0, z: z },
            );
            &&& p.valid
            &&& p.scr.x as int == half_span(width as int)
            &&& p.scr.y as int == half_span(height as int)
        }),
{
    let v = Vector3 { x: 0, y: 0, z: z };
    lemma_identity_transform(v);
    let pm = spec_project(near, far, s);
    let zi = z as int;
    let si = SCALE as int;
    // The coordinate rows vanish on the axis; the weight row maps the
    // depth to minus itself.
    assert(cell(pm, 0, 0) * 0 == 0) by (nonlinear_arith);
    assert(cell(pm, 0, 1) * 0 == 0) by (nonlinear_arith);
    assert(cell(pm, 1, 0) * 0 == 0) by (nonlinear_arith);
    assert(cell(pm, 1, 1) * 0 == 0) by (nonlinear_arith);
    assert(cell(pm, 3, 0) * 0 == 0) by (nonlinear_arith);
    assert(cell(pm, 3, 1) * 0 == 0) by (nonlinear_arith);
    assert(0 * zi == 0) by (nonlinear_arith);
    assert(0 * si == 0) by (nonlinear_arith);
    lemma_tdiv_exact(0, si);
    assert(crate::matrix::tp_row(pm, 0, 0, 0, zi) == 0);
    assert(crate::matrix::tp_row(pm, 1, 0, 0, zi) == 0);
    assert(cell(pm, 3, 2) == -si);
    assert((-si) * zi == -(zi * si)) by (nonlinear_arith);
    lemma_tdiv_exact(-zi, si);
    assert((-zi) * si == -(zi * si)) by (nonlinear_arith);
    assert(crate::matrix::tp_row(pm, 3, 0, 0, zi) == sat(-zi));
    assert(sat(-zi) == -zi);
    // The divide of zero coordinates is zero, whatever the weight.
    assert(tdiv(0 * si, -zi) == 0) by {
        assert(0 * si == 0) by (nonlinear_arith);
    }
    // The screen map lands exactly on the half spans.
    let hw = half_span(width as int);
    let hh = half_span(height as int);
    assert(0 <= hw <= LIM as int) by {
        crate::fixed::lemma_tdiv_bound(width as int * SCALE, 2, 0x10000000000);
    }
    assert(0 <= hh <= LIM as int) by {
        crate::fixed::lemma_tdiv_bound(height as int * SCALE, 2, 0x10000000000);
    }
    lemma_tdiv_exact(hw, si);
    lemma_tdiv_exact(hh, si);
    assert((si + 0) * hw == hw * si) by (nonlinear_arith);
    assert((si - 0) * hh == hh * si) by (nonlinear_arith);
}

/// The depth test resolves overlap independently of submission order:
/// where two triangles both cover a pixel and the first lies strictly
/// nearer, the buffer ends at the first one's depth either way round, and
/// in either order it is the first one's write that survives (the second
/// fails the test after it, and it overwrites the second).
pub proof fn lemma_depth_order_independent(
    a1: Vector3, b1: Vector3, c1: Vector3, a2: Vector3, b2: Vector3, c2: Vector3,
    w: int, h: int, zb0: Seq<i64>, off: int,
)
    requires
        w >= 1,
        zb0.len() == w * h,
        0 <= off < zb0.len(),
        pass_at(a1, b1, c1, w, h, zb0[off] as int, off),
        pass_at(a2, b2, c2, w, h, zb0[off] as int, off),
        depth_at(a1, b1, c1, w, off) < depth_at(a2, b2, c2, w, off),
    ensures
        zb_after(a2, b2, c2, w, h, zb_after(a1, b1, c1, w, h, zb0))[off]
            == depth_at(a1, b1, c1, w, off) as i64,
        zb_after(a1, b1, c1, w, h, zb_after(a2, b2, c2, w, h, zb0))[off]
            == depth_at(a1, b1, c1, w, off) as i64,
        !pass_at(a2, b2, c2, w, h, zb_after(a1, b1, c1, w, h, zb0)[off] as int, off),
        pass_at(a1, b1, c1, w, h, zb_after(a2, b2, c2, w, h, zb0)[off] as int, off),
{
    let d1 = depth_at(a1, b1, c1, w, off);
    let d2 = depth_at(a2, b2, c2, w, off);
    let zb1 = zb_after(a1, b1, c1, w, h, zb0);
    let zb2 = zb_after(a2, b2, c2, w, h, zb0);
    assert(zb1[off] == d1 as i64);
    assert(zb2[off] == d2 as i64);
    assert(!pass_at(a2, b2, c2, w, h, d1, off));
    assert(pass_at(a1, b1, c1, w, h, d2, off));
    assert(zb_after(a2, b2, c2, w, h, zb1)[off] == d1 as i64);
    assert(zb_after(a1, b1, c1, w, h, zb2)[off] == d1 as i64);
}

/// Twice the signed area is invariant under a cyclic rotation of the
/// triangle: the two expansions are the same polynomial.
proof fn lemma_area_cyclic(a: Vector3, b: Vector3, c: Vector3)
    ensures
        area3(a, c, b) == area3(c, b, a),
{
    assert((b.x - a.x) * (c.y - a.y) - (b.y - a.y) * (c.x - a.x)
        == (a.x - c.x) * (b.y - c.y) - (a.y - c.y) * (b.x - c.x)) by (nonlinear_arith);
}

/// The depth test resolves a whole frame independently of submission
/// order: for any two triangles, the depth buffer after drawing both is
/// the same whichever went first.  At every pixel the surviving entry is
/// the least of the stored depth and the passing triangles' depths, and a
/// least value does not depend on the order it arrives in.
pub proof fn lemma_fill_order_independent(
    a1: Vector3, b1: Vector3, c1: Vector3, a2: Vector3, b2: Vector3, c2: Vector3,
    w: int, h: int, zb0: Seq<i64>,
)
    requires
        w >= 1,
    ensures
        zb_after(a2, b2, c2, w, h, zb_after(a1, b1, c1, w, h, zb0))
            == zb_after(a1, b1, c1, w, h, zb_after(a2, b2, c2, w, h, zb0)),
{
    let z1 = zb_after(a1, b1, c1, w, h, zb0);
    let z2 = zb_after(a2, b2, c2, w, h, zb0);
    let z12 = zb_after(a2, b2, c2, w, h, z1);
    let z21 = zb_after(a1, b1, c1, w, h, z2);
    assert forall|off: int| 0 <= off < zb0.len() implies #[trigger] z12[off] == z21[off] by {
        let zo = zb0[off] as int;
        let d1 = depth_at(a1, b1, c1, w, off);
        let d2 = depth_at(a2, b2, c2, w, off);
        assert(z1[off] == if pass_at(a1, b1, c1, w, h, zo, off) { d1 as i64 } else { zb0[off] });
        assert(z2[off] == if pass_at(a2, b2, c2, w, h, zo, off) { d2 as i64 } else { zb0[off] });
        assert(z12[off] == if pass_at(a2, b2, c2, w, h, z1[off] as int, off) { d2 as i64 } else {
            z1[off]
        });
        assert(z21[off] == if pass_at(a1, b1, c1, w, h, z2[off] as int, off) { d1 as i64 } else {
            z2[off]
        });
    }
    assert(z12 =~= z21);
}

/// The two orientation swaps agree: filling `(a, c, b)` — the renderer's
/// back-face flip — passes the same pixels at the same depths as filling
/// the fully reversed triangle `(c, b, a)`, so the flip is equivalent to
/// feeding the reversed vertex order to the same fill routine.
pub proof fn lemma_winding_flip(
    a: Vector3, b: Vector3, c: Vector3, w: int, h: int, zo: int, px: int, py: int,
)
    ensures
        pix_pass(a, c, b, w, h, zo, px, py) == pix_pass(c, b, a, w, h, zo, px, py),
        pix_depth(a, c, b, px, py) == pix_depth(c, b, a, px, py),
{
    lemma_area_cyclic(a, b, c);
}

/// The flip law for a whole frame: the depth buffer one triangle leaves is
/// the same whether the triangle is submitted as `(a, c, b)` or fully
/// reversed as `(c, b, a)` — with the emitted pixels passing identically,
/// the drawn point sets coincide as well.
pub proof fn lemma_winding_flip_buffer(
    a: Vector3, b: Vector3, c: Vector3, w: int, h: int, zb0: Seq<i64>,
)
    requires
        w >= 1,
    ensures
        zb_after(a, c, b, w, h, zb0) == zb_after(c, b, a, w, h, zb0),
        forall|off: int|
            0 <= off < zb0.len() ==> #[trigger] pass_at(a, c, b, w, h, zb0[off] as int, off)
                == pass_at(c, b, a, w, h, zb0[off] as int, off),
{
    assert forall|off: int| 0 <= off < zb0.len()
        implies #[trigger] pass_at(a, c, b, w, h, zb0[off] as int, off)
            == pass_at(c, b, a, w, h, zb0[off] as int, off) by {
        lemma_winding_flip(a, b, c, w, h, zb0[off] as int, off % w, off / w);
    }
    assert forall|off: int| 0 <= off < zb0.len()
        implies #[trigger] zb_after(a, c, b, w, h, zb0)[off]
            == zb_after(c, b, a, w, h, zb0)[off] by {
        lemma_winding_flip(a, b, c, w, h, zb0[off] as int, off % w, off / w);
    }
    assert(zb_after(a, c, b, w, h, zb0) =~= zb_after(c, b, a, w, h, zb0));
}

/// The quotient times the divisor stays within one divisor of the
/// dividend, on the zero side; squared, it never exceeds the dividend
/// squared, and one more quotient step overshoots it.
proof fn lemma_trunc_sq(a: int, b: int)
    requires
        b >= 1,
    ensures
        (tdiv(a, b) * b) * (tdiv(a, b) * b) <= a * a,
        ((abs1(tdiv(a, b)) + 1) * b) * ((abs1(tdiv(a, b)) + 1) * b) > a * a,
        -(b - 1) <= tdiv(a, b) * b - a <= b - 1,
{
    broadcast use vstd::arithmetic::mul::group_mul_is_commutative_and_distributive;

    crate::fixed::lemma_tdiv_mul_bracket(a, b);
    let q = tdiv(a, b);
    if a >= 0 {
        assert((q + 1) * b == q * b + b);
        assert((q * b) * (q * b) <= a * a) by (nonlinear_arith)
            requires 0 <= q * b <= a;
        assert(((q + 1) * b) * ((q + 1) * b) > a * a) by (nonlinear_arith)
            requires 0 <= a < (q + 1) * b;
        assert(abs1(q) == q);
    } else {
        assert(q * b <= 0) by (nonlinear_arith)
            requires q <= 0, b >= 1;
        assert((q - 1) * b == q * b - b);
        assert((q * b) * (q * b) <= a * a) by (nonlinear_arith)
            requires a <= q * b <= 0;
        assert(((-q) + 1) * b == -((q - 1) * b));
        assert((((-q) + 1) * b) * (((-q) + 1) * b) > a * a) by (nonlinear_arith)
            requires (q - 1) * b < a <= 0, ((-q) + 1) * b == -((q - 1) * b);
        assert(abs1(q) == -q);
    }
}

/// The shared shape of `normalize`: the integer length is positive and
/// small, and each normalized component is the plain truncated quotient,
/// within one unit, with no saturation anywhere.
proof fn lemma_norm_core(x: int, y: int, z: int)
    requires
        crate::fixed::fits(x),
        crate::fixed::fits(y),
        crate::fixed::fits(z),
        !(x == 0 && y == 0 && z == 0),
    ensures
        ({
            let q = crate::vector::sqsum3(x, y, z);
            let l = crate::fixed::sqrt_floor(q as nat) as int;
            let n = crate::vector::norm3(x, y, z);
            &&& 1 <= l < 0x4000000000
            &&& crate::vector::len3(x, y, z) == l
            &&& l * l <= q < (l + 1) * (l + 1)
            &&& n.0 == tdiv(x * SCALE, l) && -(SCALE as int) <= n.0 <= SCALE as int
            &&& n.1 == tdiv(y * SCALE, l) && -(SCALE as int) <= n.1 <= SCALE as int
            &&& n.2 == tdiv(z * SCALE, l) && -(SCALE as int) <= n.2 <= SCALE as int
            &&& abs1(x) <= l && abs1(y) <= l && abs1(z) <= l
        }),
{
    let q = crate::vector::sqsum3(x, y, z);
    assert(x * x >= 0 && y * y >= 0 && z * z >= 0) by (nonlinear_arith);
    if x != 0 {
        assert(x * x >= 1) by (nonlinear_arith) requires x != 0;
    } else if y != 0 {
        assert(y * y >= 1) by (nonlinear_arith) requires y != 0;
    } else {
        assert(z * z >= 1) by (nonlinear_arith) requires z != 0;
    }
    assert(x * x <= 0x4000000000000000000) by (nonlinear_arith)
        requires -0x2000000000 <= x <= 0x2000000000;
    assert(y * y <= 0x4000000000000000000) by (nonlinear_arith)
        requires -0x2000000000 <= y <= 0x2000000000;
    assert(z * z <= 0x4000000000000000000) by (nonlinear_arith)
        requires -0x2000000000 <= z <= 0x2000000000;
    crate::fixed::lemma_sqrt_floor_correct(q as nat);
    let l = crate::fixed::sqrt_floor(q as nat) as int;
    if l == 0 {
        assert((l + 1) * (l + 1) == 1) by (nonlinear_arith) requires l == 0;
    }
    assert(l < 0x4000000000) by (nonlinear_arith)
        requires l * l <= q, q <= 0xc000000000000000000, l >= 1;
    lemma_abs_le_len(x, q, l);
    lemma_abs_le_len(y, q, l);
    lemma_abs_le_len(z, q, l);
    lemma_norm_component(x, l);
    lemma_norm_component(y, l);
    lemma_norm_component(z, l);
}

/// A component's magnitude never exceeds the integer length.
proof fn lemma_abs_le_len(x: int, q: int, l: int)
    requires
        x * x <= q,
        q < (l + 1) * (l + 1),
        l >= 0,
    ensures
        abs1(x) <= l,
{
    if abs1(x) > l {
        assert(x * x >= (l + 1) * (l + 1)) by (nonlinear_arith)
            requires abs1(x) >= l + 1, l + 1 >= 1;
    }
}

/// A normalized component is the plain quotient, within one unit.
proof fn lemma_norm_component(x: int, l: int)
    requires
        l >= 1,
        abs1(x) <= l,
    ensures
        sat(tdiv(x * SCALE, l)) == tdiv(x * SCALE, l),
        -(SCALE as int) <= tdiv(x * SCALE, l) <= SCALE as int,
{
    assert(-(65536 * l) <= x * 65536 <= 65536 * l) by (nonlinear_arith)
        requires -l <= x <= l;
    crate::fixed::lemma_tdiv_bound(x * SCALE, l, SCALE as int);
}

/// Normalizing a vector at least one unit long yields a vector whose
/// integer length is one unit, within a five-step tolerance of the
/// rounding: truncation of each component and of the square root.
pub proof fn lemma_normalize_unit_length(v: Vector3)
    requires
        crate::fixed::fits(v.x as int),
        crate::fixed::fits(v.y as int),
        crate::fixed::fits(v.z as int),
        crate::vector::len3(v.x as int, v.y as int, v.z as int) >= SCALE,
    ensures
        ({
            let n = crate::vector::norm3(v.x as int, v.y as int, v.z as int);
            SCALE - 4 <= crate::vector::len3(n.0, n.1, n.2) <= SCALE as int + 1
        }),
{
    let x = v.x as int;
    let y = v.y as int;
    let z = v.z as int;
    let s = SCALE as int;
    lemma_norm_core(x, y, z);
    let q = crate::vector::sqsum3(x, y, z);
    let l = crate::fixed::sqrt_floor(q as nat) as int;
    let n = crate::vector::norm3(x, y, z);
    let (n1, n2, n3) = n;
    lemma_trunc_sq(x * s, l);
    lemma_trunc_sq(y * s, l);
    lemma_trunc_sq(z * s, l);
    let sum = n1 * n1 + n2 * n2 + n3 * n3;
    // Upper bound: the scaled squares are dominated by the squared inputs.
    assert((n1 * l) * (n1 * l) == (n1 * n1) * (l * l)) by (nonlinear_arith);
    assert((n2 * l) * (n2 * l) == (n2 * n2) * (l * l)) by (nonlinear_arith);
    assert((n3 * l) * (n3 * l) == (n3 * n3) * (l * l)) by (nonlinear_arith);
    assert((x * s) * (x * s) == (x * x) * (s * s)) by (nonlinear_arith);
    assert((y * s) * (y * s) == (y * y) * (s * s)) by (nonlinear_arith);
    assert((z * s) * (z * s) == (z * z) * (s * s)) by (nonlinear_arith);
    assert(q * (s * s) == (x * x) * (s * s) + (y * y) * (s * s) + (z * z) * (s * s))
        by (nonlinear_arith)
        requires q == x * x + y * y + z * z;
    assert(n1 * n1 >= 0 && n2 * n2 >= 0 && n3 * n3 >= 0) by (nonlinear_arith);
    assert(sum * (l * l) == (n1 * n1) * (l * l) + (n2 * n2) * (l * l) + (n3 * n3) * (l * l))
        by (nonlinear_arith)
        requires sum == n1 * n1 + n2 * n2 + n3 * n3;
    assert(sum * (l * l) <= q * (s * s));
    assert(q * (s * s) < ((l + 1) * (l + 1)) * (s * s)) by (nonlinear_arith)
        requires q < (l + 1) * (l + 1), s >= 1;
    assert(sum <= (s + 1) * (s + 1)) by (nonlinear_arith)
        requires
            sum * (l * l) < ((l + 1) * (l + 1)) * (s * s),
            l >= s,
            s == 65536,
            sum >= 0;
    // Lower bound: one quotient step per component overshoots the inputs.
    let a1 = abs1(n1);
    let a2 = abs1(n2);
    let a3 = abs1(n3);
    assert(((a1 + 1) * l) * ((a1 + 1) * l) == ((a1 + 1) * (a1 + 1)) * (l * l))
        by (nonlinear_arith);
    assert(((a2 + 1) * l) * ((a2 + 1) * l) == ((a2 + 1) * (a2 + 1)) * (l * l))
        by (nonlinear_arith);
    assert(((a3 + 1) * l) * ((a3 + 1) * l) == ((a3 + 1) * (a3 + 1)) * (l * l))
        by (nonlinear_arith);
    assert(((a1 + 1) * (a1 + 1) + (a2 + 1) * (a2 + 1) + (a3 + 1) * (a3 + 1)) * (l * l)
        == ((a1 + 1) * (a1 + 1)) * (l * l) + ((a2 + 1) * (a2 + 1)) * (l * l)
            + ((a3 + 1) * (a3 + 1)) * (l * l)) by (nonlinear_arith);
    assert(((a1 + 1) * (a1 + 1) + (a2 + 1) * (a2 + 1) + (a3 + 1) * (a3 + 1)) * (l * l)
        > q * (s * s));
    assert(q * (s * s) >= (l * l) * (s * s)) by (nonlinear_arith)
        requires q >= l * l, s >= 1;
    assert((a1 + 1) * (a1 + 1) + (a2 + 1) * (a2 + 1) + (a3 + 1) * (a3 + 1) > s * s)
        by (nonlinear_arith)
        requires
            ((a1 + 1) * (a1 + 1) + (a2 + 1) * (a2 + 1) + (a3 + 1) * (a3 + 1)) * (l * l)
                > (l * l) * (s * s),
            l >= 1;
    assert((a1 + 1) * (a1 + 1) == a1 * a1 + 2 * a1 + 1) by (nonlinear_arith);
    assert((a2 + 1) * (a2 + 1) == a2 * a2 + 2 * a2 + 1) by (nonlinear_arith);
    assert((a3 + 1) * (a3 + 1) == a3 * a3 + 2 * a3 + 1) by (nonlinear_arith);
    assert(a1 == n1 || a1 == -n1);
    assert(a2 == n2 || a2 == -n2);
    assert(a3 == n3 || a3 == -n3);
    assert(a1 * a1 == n1 * n1) by (nonlinear_arith)
        requires a1 == n1 || a1 == -n1;
    assert(a2 * a2 == n2 * n2) by (nonlinear_arith)
        requires a2 == n2 || a2 == -n2;
    assert(a3 * a3 == n3 * n3) by (nonlinear_arith)
        requires a3 == n3 || a3 == -n3;
    assert(a1 <= s && a2 <= s && a3 <= s);
    assert(sum > s * s - 6 * s - 3);
    // From the two bounds on the sum of squares to its square root.
    crate::fixed::lemma_sqrt_floor_correct(sum as nat);
    let r = crate::fixed::sqrt_floor(sum as nat) as int;
    assert(r <= s + 1) by (nonlinear_arith)
        requires r * r <= sum, sum <= (s + 1) * (s + 1), r >= 0, s >= 0;
    assert(r >= s - 4) by (nonlinear_arith)
        requires sum < (r + 1) * (r + 1), sum > s * s - 6 * s - 3, s == 65536, r >= 0;
    assert(crate::vector::len3(n1, n2, n3) == sat(r));
}

/// Three truncated quotients against an exactly orthogonal triple stay
/// orthogonal within the truncation: the inner product against `v` is at
/// most the sum of the magnitudes of `v`.
proof fn lemma_dot_small(
    t1: int, t2: int, t3: int, u1: int, u2: int, u3: int, v1: int, v2: int, v3: int, l: int,
)
    requires
        l >= 1,
        -(l - 1) <= t1 * l - u1 <= l - 1,
        -(l - 1) <= t2 * l - u2 <= l - 1,
        -(l - 1) <= t3 * l - u3 <= l - 1,
        u1 * v1 + u2 * v2 + u3 * v3 == 0,
    ensures
        abs1(t1 * v1 + t2 * v2 + t3 * v3) <= abs1(v1) + abs1(v2) + abs1(v3),
{
    let d = t1 * v1 + t2 * v2 + t3 * v3;
    let e1 = t1 * l - u1;
    let e2 = t2 * l - u2;
    let e3 = t3 * l - u3;
    vstd::arithmetic::mul::lemma_mul_is_distributive_add_other_way(l, t1 * v1 + t2 * v2,
        t3 * v3);
    vstd::arithmetic::mul::lemma_mul_is_distributive_add_other_way(l, t1 * v1, t2 * v2);
    assert(d * l == (t1 * v1) * l + (t2 * v2) * l + (t3 * v3) * l);
    assert((t1 * v1) * l == (t1 * l) * v1) by (nonlinear_arith);
    assert((t2 * v2) * l == (t2 * l) * v2) by (nonlinear_arith);
    assert((t3 * v3) * l == (t3 * l) * v3) by (nonlinear_arith);
    assert((t1 * l) * v1 == u1 * v1 + e1 * v1) by (nonlinear_arith)
        requires e1 == t1 * l - u1;
    assert((t2 * l) * v2 == u2 * v2 + e2 * v2) by (nonlinear_arith)
        requires e2 == t2 * l - u2;
    assert((t3 * l) * v3 == u3 * v3 + e3 * v3) by (nonlinear_arith)
        requires e3 == t3 * l - u3;
    assert(d * l == e1 * v1 + e2 * v2 + e3 * v3);
    assert(-((l - 1) * abs1(v1)) <= e1 * v1 <= (l - 1) * abs1(v1)) by (nonlinear_arith)
        requires -(l - 1) <= e1 <= l - 1, l >= 1;
    assert(-((l - 1) * abs1(v2)) <= e2 * v2 <= (l - 1) * abs1(v2)) by (nonlinear_arith)
        requires -(l - 1) <= e2 <= l - 1, l >= 1;
    assert(-((l - 1) * abs1(v3)) <= e3 * v3 <= (l - 1) * abs1(v3)) by (nonlinear_arith)
        requires -(l - 1) <= e3 <= l - 1, l >= 1;
    let vv = abs1(v1) + abs1(v2) + abs1(v3);
    vstd::arithmetic::mul::lemma_mul_is_distributive_add(l - 1, abs1(v1) + abs1(v2), abs1(v3));
    vstd::arithmetic::mul::lemma_mul_is_distributive_add(l - 1, abs1(v1), abs1(v2));
    assert((l - 1) * abs1(v1) + (l - 1) * abs1(v2) + (l - 1) * abs1(v3) == (l - 1) * vv);
    assert(abs1(d) <= vv) by (nonlinear_arith)
        requires -((l - 1) * vv) <= d * l <= (l - 1) * vv, l >= 1, vv >= 0;
}

/// A small inner product divided down by one unit stays within one step
/// of the scaled tolerance.
proof fn lemma_small_ratio(d: int, vv: int)
    requires
        vv >= 0,
        abs1(d) <= vv,
    ensures
        abs1(sat(tdiv(d, SCALE as int))) <= tdiv(vv, SCALE as int) + 1,
{
    let s = SCALE as int;
    crate::fixed::lemma_tdiv_mul_bracket(vv, s);
    let b = tdiv(vv, s) + 1;
    assert(b * s > vv) by (nonlinear_arith)
        requires (tdiv(vv, s) + 1) * s > vv, b == tdiv(vv, s) + 1;
    assert(-(b * s) <= d <= b * s);
    crate::fixed::lemma_tdiv_bound(d, s, b);
}

/// The basis around a vector is orthogonal to it, within the truncation:
/// both produced vectors have an inner product against the vector that
/// vanishes at the fixed-point scale, up to the vector's own size divided
/// down by one unit.
pub proof fn lemma_coord_system_orthogonal(v: Vector3)
    requires
        crate::fixed::fits(v.x as int),
        crate::fixed::fits(v.y as int),
        crate::fixed::fits(v.z as int),
        !(v.x == 0 && v.y == 0 && v.z == 0),
    ensures
        ({
            let t = crate::vector::tangent3(v);
            let nb = crate::vector::cross3(v.x as int, v.y as int, v.z as int, t.0, t.1, t.2);
            let tol = tdiv(abs1(v.x as int) + abs1(v.y as int) + abs1(v.z as int),
                SCALE as int) + 1;
            &&& abs1(crate::vector::dot3(t.0, t.1, t.2, v.x as int, v.y as int, v.z as int))
                <= tol
            &&& abs1(crate::vector::dot3(nb.0, nb.1, nb.2, v.x as int, v.y as int, v.z as int))
                <= tol
        }),
{
    let s = SCALE as int;
    let vx = v.x as int;
    let vy = v.y as int;
    let vz = v.z as int;
    let (w1, w2, w3): (int, int, int) = if abs1(vy) < abs1(vx) {
        (vz, 0int, -vx)
    } else {
        (0int, vz, -vy)
    };
    assert(w1 * vx + w2 * vy + w3 * vz == 0) by (nonlinear_arith)
        requires
            (w1 == vz && w2 == 0 && w3 == -vx) || (w1 == 0 && w2 == vz && w3 == -vy);
    assert(!(w1 == 0 && w2 == 0 && w3 == 0));
    lemma_norm_core(w1, w2, w3);
    let l = crate::fixed::sqrt_floor(crate::vector::sqsum3(w1, w2, w3) as nat) as int;
    let t = crate::vector::tangent3(v);
    assert(t == crate::vector::norm3(w1, w2, w3));
    let (t1, t2, t3) = t;
    lemma_trunc_sq(w1 * s, l);
    lemma_trunc_sq(w2 * s, l);
    lemma_trunc_sq(w3 * s, l);
    assert((w1 * s) * vx == s * (w1 * vx)) by (nonlinear_arith);
    assert((w2 * s) * vy == s * (w2 * vy)) by (nonlinear_arith);
    assert((w3 * s) * vz == s * (w3 * vz)) by (nonlinear_arith);
    assert(s * (w1 * vx) + s * (w2 * vy) + s * (w3 * vz)
        == s * (w1 * vx + w2 * vy + w3 * vz)) by (nonlinear_arith);
    assert((w1 * s) * vx + (w2 * s) * vy + (w3 * s) * vz == 0);
    lemma_dot_small(t1, t2, t3, w1 * s, w2 * s, w3 * s, vx, vy, vz, l);
    let vv = abs1(vx) + abs1(vy) + abs1(vz);
    lemma_small_ratio(t1 * vx + t2 * vy + t3 * vz, vv);
    // The second basis vector: the cross product against the tangent.
    let c1 = vy * t3 - vz * t2;
    let c2 = vz * t1 - vx * t3;
    let c3 = vx * t2 - vy * t1;
    assert(c1 * vx + c2 * vy + c3 * vz == 0) by (nonlinear_arith)
        requires
            c1 == vy * t3 - vz * t2,
            c2 == vz * t1 - vx * t3,
            c3 == vx * t2 - vy * t1;
    let nb = crate::vector::cross3(vx, vy, vz, t1, t2, t3);
    assert(-0x40000000000000 <= c1 <= 0x40000000000000
        && -0x40000000000000 <= c2 <= 0x40000000000000
        && -0x40000000000000 <= c3 <= 0x40000000000000) by (nonlinear_arith)
        requires
            -0x2000000000 <= vx <= 0x2000000000,
            -0x2000000000 <= vy <= 0x2000000000,
            -0x2000000000 <= vz <= 0x2000000000,
            -65536 <= t1 <= 65536,
            -65536 <= t2 <= 65536,
            -65536 <= t3 <= 65536,
            c1 == vy * t3 - vz * t2,
            c2 == vz * t1 - vx * t3,
            c3 == vx * t2 - vy * t1;
    crate::fixed::lemma_tdiv_bound(c1, s, 0x10000000000);
    crate::fixed::lemma_tdiv_bound(c2, s, 0x10000000000);
    crate::fixed::lemma_tdiv_bound(c3, s, 0x10000000000);
    let b1 = tdiv(c1, s);
    let b2 = tdiv(c2, s);
    let b3 = tdiv(c3, s);
    assert(nb == (b1, b2, b3));
    lemma_trunc_sq(c1, s);
    lemma_trunc_sq(c2, s);
    lemma_trunc_sq(c3, s);
    lemma_dot_small(b1, b2, b3, c1, c2, c3, vx, vy, vz, s);
    lemma_small_ratio(b1 * vx + b2 * vy + b3 * vz, vv);
}

/// The depth-buffer invariant for one triangle: an entry is only ever
/// overwritten by a strictly smaller depth, so the buffer descends
/// pointwise toward the nearest surface.
pub proof fn lemma_depth_buffer_descends(
    va: Vector3, vb: Vector3, vc: Vector3, w: int, h: int, zb0: Seq<i64>,
)
    ensures
        zb_after(va, vb, vc, w, h, zb0).len() == zb0.len(),
        forall|off: int|
            0 <= off < zb0.len() ==> #[trigger] zb_after(va, vb, vc, w, h, zb0)[off]
                <= zb0[off],
{
    assert forall|off: int| 0 <= off < zb0.len()
        implies #[trigger] zb_after(va, vb, vc, w, h, zb0)[off] <= zb0[off] by {
        if pass_at(va, vb, vc, w, h, zb0[off] as int, off) {
            assert(depth_at(va, vb, vc, w, off) < zb0[off] as int);
        }
    }
}

/// The depth-buffer invariant for a whole frame: however many faces are
/// drawn over it, no entry ever rises.
pub proof fn lemma_frame_depth_descends(
    faces: Seq<crate::mesh::Face>, pv: Seq<ProjVert>, w: int, h: int, zb0: Seq<i64>, n: int,
)
    requires
        n >= 0,
    ensures
        zb_fold(faces, pv, w, h, zb0, n).len() == zb0.len(),
        forall|off: int|
            0 <= off < zb0.len() ==> #[trigger] zb_fold(faces, pv, w, h, zb0, n)[off]
                <= zb0[off],
    decreases n,
{
    if n > 0 {
        lemma_frame_depth_descends(faces, pv, w, h, zb0, n - 1);
        let prev = zb_fold(faces, pv, w, h, zb0, n - 1);
        let f = faces[n - 1];
        if !crate::renderer::face_skipped(pv, f) {
            let tri = crate::renderer::face_screen_tri(pv, f);
            lemma_depth_buffer_descends(tri.0, tri.1, tri.2, w, h, prev);
        }
    }
}

} // verus!
