//! The rasterizer: triangles in fixed-point screen space are filled pixel
//! by pixel over their bounding box, inside-tested by three edge functions,
//! depth-interpolated through reciprocal depths, and written through a
//! strict depth test.
//!
//! The contract of `fill_triangle` is pointwise and exact: for every pixel
//! offset it states whether the depth buffer entry is overwritten, with
//! which interpolated depth, and that a point is emitted for exactly the
//! pixels that pass.

use vstd::prelude::*;
use vstd::arithmetic::div_mod::{
    lemma_fundamental_div_mod_converse, lemma_div_is_ordered, lemma_div_basics,
    lemma_div_is_ordered_by_denominator,
};
use vstd::arithmetic::mul::lemma_mul_inequality;
use crate::fixed::{SCALE, tdiv, sat, inb, fx_div, sat_narrow, tdiv128, lemma_inb_product};
use crate::vector::{Vector3, bounded};
use crate::mesh::{Color3, Face, Vertex};
use crate::matrix::{Matrix4, m_bounded, spec_transform};

verus! {

/// One emitted pixel: integer screen coordinates and a color.
#[derive(Clone, Copy, PartialEq, Eq, Structural, Debug)]
pub struct ScreenPoint {
    pub x: i64,
    pub y: i64,
    pub color: Color3,
}

/// The edge function of the directed edge `a` to `b` at the point
/// `(cx, cy)`: positive on its left, zero on the line, rescaled by one
/// unit, rounded toward zero and saturated.
pub open spec fn edge3(a: Vector3, b: Vector3, cx: int, cy: int) -> int {
    sat(tdiv((cx - a.x) * (b.y - a.y) - (cy - a.y) * (b.x - a.x), SCALE as int))
}

/// Twice the signed screen area of the triangle, as the edge function of
/// its first edge at its third vertex.
pub open spec fn area3(va: Vector3, vb: Vector3, vc: Vector3) -> int {
    edge3(va, vb, vc.x as int, vc.y as int)
}

/// The reciprocal of a vertex depth, as a fixed-point scalar.
pub open spec fn recip_z(v: Vector3) -> int {
    sat(tdiv(SCALE as int * SCALE as int, v.z as int))
}

/// A triangle is rejected outright when it lies entirely beyond the far
/// plane or before the near plane, touches zero depth (where a reciprocal
/// is undefined), or has zero signed area.
pub open spec fn tri_rejected(va: Vector3, vb: Vector3, vc: Vector3) -> bool {
    ||| (va.z > SCALE && vb.z > SCALE && vc.z > SCALE)
    ||| (va.z < -(SCALE as int) && vb.z < -(SCALE as int) && vc.z < -(SCALE as int))
    ||| va.z == 0
    ||| vb.z == 0
    ||| vc.z == 0
    ||| area3(va, vb, vc) == 0
}

pub open spec fn min3i(a: int, b: int, c: int) -> int {
    if a <= b && a <= c {
        a
    } else if b <= c {
        b
    } else {
        c
    }
}

pub open spec fn max3i(a: int, b: int, c: int) -> int {
    if a >= b && a >= c {
        a
    } else if b >= c {
        b
    } else {
        c
    }
}

/// The left edge of the bounding box, clamped to the screen.
pub open spec fn x_lo(va: Vector3, vb: Vector3, vc: Vector3) -> int {
    let m = min3i(va.x as int, vb.x as int, vc.x as int);
    if m < 0 {
        0
    } else {
        m
    }
}

/// The right edge of the bounding box, clamped to the screen.
pub open spec fn x_hi(va: Vector3, vb: Vector3, vc: Vector3, w: int) -> int {
    let m = max3i(va.x as int, vb.x as int, vc.x as int);
    if m > (w - 1) * SCALE {
        (w - 1) * SCALE
    } else {
        m
    }
}

/// The top edge of the bounding box, clamped to the screen.
pub open spec fn y_lo(va: Vector3, vb: Vector3, vc: Vector3) -> int {
    let m = min3i(va.y as int, vb.y as int, vc.y as int);
    if m < 0 {
        0
    } else {
        m
    }
}

/// The bottom edge of the bounding box, clamped to the screen.
pub open spec fn y_hi(va: Vector3, vb: Vector3, vc: Vector3, h: int) -> int {
    let m = max3i(va.y as int, vb.y as int, vc.y as int);
    if m > (h - 1) * SCALE {
        (h - 1) * SCALE
    } else {
        m
    }
}

/// The smallest whole pixel coordinate at or above a fixed-point one.
pub open spec fn ceil_s(n: int) -> int {
    if n >= 0 {
        (n + SCALE - 1) / (SCALE as int)
    } else {
        -((-n) / (SCALE as int))
    }
}

/// The pixel column where the scan starts.
pub open spec fn px_lo(va: Vector3, vb: Vector3, vc: Vector3) -> int {
    x_lo(va, vb, vc) / (SCALE as int)
}

/// The last pixel column the scan touches.
pub open spec fn px_hi(va: Vector3, vb: Vector3, vc: Vector3, w: int) -> int {
    ceil_s(x_hi(va, vb, vc, w))
}

/// The pixel row where the scan starts.
pub open spec fn py_lo(va: Vector3, vb: Vector3, vc: Vector3) -> int {
    y_lo(va, vb, vc) / (SCALE as int)
}

/// The last pixel row the scan touches.
pub open spec fn py_hi(va: Vector3, vb: Vector3, vc: Vector3, h: int) -> int {
    ceil_s(y_hi(va, vb, vc, h))
}

/// Whether the pixel `(px, py)` lies in the scanned bounding box.
pub open spec fn in_bbox(va: Vector3, vb: Vector3, vc: Vector3, w: int, h: int, px: int, py: int) -> bool {
    &&& px_lo(va, vb, vc) <= px <= px_hi(va, vb, vc, w)
    &&& py_lo(va, vb, vc) <= py <= py_hi(va, vb, vc, h)
}

/// Whether the pixel center `(px, py)` lies inside all three edges.
pub open spec fn pix_inside(va: Vector3, vb: Vector3, vc: Vector3, px: int, py: int) -> bool {
    &&& edge3(vb, vc, px * SCALE, py * SCALE) >= 0
    &&& edge3(vc, va, px * SCALE, py * SCALE) >= 0
    &&& edge3(va, vb, px * SCALE, py * SCALE) >= 0
}

/// The denominator of the interpolated depth at a pixel: the barycentric
/// edge weights against the vertices' reciprocal depths.
pub open spec fn pix_denom(va: Vector3, vb: Vector3, vc: Vector3, px: int, py: int) -> int {
    edge3(vb, vc, px * SCALE, py * SCALE) * recip_z(va)
        + edge3(vc, va, px * SCALE, py * SCALE) * recip_z(vb)
        + edge3(va, vb, px * SCALE, py * SCALE) * recip_z(vc)
}

/// The interpolated depth at a pixel: the area against the reciprocal
/// interpolation, rounded toward zero.
pub open spec fn pix_depth(va: Vector3, vb: Vector3, vc: Vector3, px: int, py: int) -> int {
    tdiv(area3(va, vb, vc) * SCALE * SCALE, pix_denom(va, vb, vc, px, py))
}

/// Whether the pixel `(px, py)` receives this triangle, against the depth
/// `zo` stored for it before the triangle was drawn: the triangle is not
/// rejected, the pixel is scanned and inside, its depth is defined, lies
/// strictly within the unit depth range, and strictly closer than `zo`.
pub open spec fn pix_pass(
    va: Vector3, vb: Vector3, vc: Vector3, w: int, h: int, zo: int, px: int, py: int,
) -> bool {
    &&& !tri_rejected(va, vb, vc)
    &&& in_bbox(va, vb, vc, w, h, px, py)
    &&& pix_inside(va, vb, vc, px, py)
    &&& pix_denom(va, vb, vc, px, py) != 0
    &&& -(SCALE as int) < pix_depth(va, vb, vc, px, py) < SCALE as int
    &&& pix_depth(va, vb, vc, px, py) < zo
}

/// `pix_pass` at a flat buffer offset, row-major.
pub open spec fn pass_at(
    va: Vector3, vb: Vector3, vc: Vector3, w: int, h: int, zo: int, off: int,
) -> bool {
    pix_pass(va, vb, vc, w, h, zo, off % w, off / w)
}

/// `pix_depth` at a flat buffer offset, row-major.
pub open spec fn depth_at(va: Vector3, vb: Vector3, vc: Vector3, w: int, off: int) -> int {
    pix_depth(va, vb, vc, off % w, off / w)
}

/// How one triangle leaves the depth buffer: every passing offset holds
/// the interpolated depth, every other offset is untouched.
pub open spec fn zb_filled(
    va: Vector3, vb: Vector3, vc: Vector3, w: int, h: int, zb0: Seq<i64>, zb: Seq<i64>,
) -> bool {
    &&& zb.len() == zb0.len()
    &&& forall|off: int|
        0 <= off < zb0.len() ==> #[trigger] zb[off] == (
        if pass_at(va, vb, vc, w, h, zb0[off] as int, off) {
            depth_at(va, vb, vc, w, off) as i64
        } else {
            zb0[off]
        })
}

/// How one triangle extends the point list: the old points stay, each new
/// point is an in-screen pixel of this triangle's color at a passing
/// offset, every passing offset gets exactly one new point.
pub open spec fn pts_filled(
    va: Vector3, vb: Vector3, vc: Vector3, w: int, h: int, zb0: Seq<i64>,
    pts0: Seq<ScreenPoint>, pts: Seq<ScreenPoint>, color: Color3,
) -> bool {
    &&& pts0.len() <= pts.len()
    &&& forall|i: int| 0 <= i < pts0.len() ==> #[trigger] pts[i] == pts0[i]
    &&& forall|i: int|
        pts0.len() <= i < pts.len() ==> {
            let p = #[trigger] pts[i];
            &&& 0 <= p.x < w
            &&& 0 <= p.y < h
            &&& p.color == color
            &&& pass_at(va, vb, vc, w, h, zb0[p.y * w + p.x] as int, p.y * w + p.x)
        }
    &&& forall|off: int|
        0 <= off < zb0.len() && #[trigger] pass_at(va, vb, vc, w, h, zb0[off] as int, off)
            ==> exists|i: int|
            pts0.len() <= i < pts.len() && (#[trigger] pts[i]).y * w + pts[i].x == off
    &&& forall|i: int, j: int|
        pts0.len() <= i < j < pts.len()
            ==> !((#[trigger] pts[i]).x == (#[trigger] pts[j]).x && pts[i].y == pts[j].y)
}

/// The pixels the scan has already walked, up to (but not including) the
/// pixel `(px, py)` in row-major order within the bounding box.
pub open spec fn visited_at(
    va: Vector3, vb: Vector3, vc: Vector3, w: int, h: int, off: int, py: int, px: int,
) -> bool {
    let opx = off % w;
    let opy = off / w;
    &&& in_bbox(va, vb, vc, w, h, opx, opy)
    &&& (opy < py || (opy == py && opx < px))
}

/// Row-major offsets decompose uniquely into a row and a column.
proof fn lemma_off_decompose(w: int, px: int, py: int)
    requires
        w >= 1,
        0 <= px < w,
        0 <= py,
    ensures
        (py * w + px) / w == py,
        (py * w + px) % w == px,
{
    lemma_fundamental_div_mod_converse(py * w + px, w, py, px);
}

/// The ceiling scan bound never passes a whole pixel bound.
proof fn lemma_ceil_le(n: int, k: int)
    requires
        k >= 0,
        n <= k * SCALE,
    ensures
        ceil_s(n) <= k,
{
    if n >= 0 {
        lemma_div_is_ordered(n + SCALE - 1, k * SCALE + SCALE - 1, SCALE as int);
        lemma_fundamental_div_mod_converse(k * SCALE + SCALE - 1, SCALE as int, k, SCALE - 1);
    } else {
        lemma_div_is_ordered(0, -n, SCALE as int);
        lemma_div_basics(SCALE as int);
    }
}

/// Nonnegative scalars scan from a nonnegative pixel.
proof fn lemma_floor_nonneg(n: int)
    requires
        n >= 0,
    ensures
        n / (SCALE as int) >= 0,
        n / (SCALE as int) <= n,
{
    lemma_div_is_ordered(0, n, SCALE as int);
    lemma_div_basics(SCALE as int);
    lemma_div_is_ordered_by_denominator(n, 1, SCALE as int);
}

/// Exec mirror of `min3i`.
fn min3(a: i64, b: i64, c: i64) -> (r: i64)
    ensures
        r as int == min3i(a as int, b as int, c as int),
{
    if a <= b && a <= c {
        a
    } else if b <= c {
        b
    } else {
        c
    }
}

/// Exec mirror of `max3i`.
fn max3(a: i64, b: i64, c: i64) -> (r: i64)
    ensures
        r as int == max3i(a as int, b as int, c as int),
{
    if a >= b && a >= c {
        a
    } else if b >= c {
        b
    } else {
        c
    }
}

/// Exec mirror of `ceil_s`.
fn ceil_scale(n: i64) -> (r: i64)
    requires
        -0x4000000000000000 <= n <= 0x4000000000000000,
    ensures
        r as int == ceil_s(n as int),
{
    if n >= 0 {
        (n + (SCALE - 1)) / SCALE
    } else {
        -((-n) / SCALE)
    }
}

/// The edge function, computed exactly in 128 bits.
fn edge_function(a: &Vector3, b: &Vector3, cx: i64, cy: i64) -> (r: i64)
    requires
        bounded(*a),
        bounded(*b),
        -0x2000000000000 <= cx <= 0x2000000000000,
        -0x2000000000000 <= cy <= 0x2000000000000,
    ensures
        r as int == edge3(*a, *b, cx as int, cy as int),
        inb(r as int),
{
    let dx: i128 = cx as i128 - a.x as i128;
    let ey: i128 = b.y as i128 - a.y as i128;
    let dy: i128 = cy as i128 - a.y as i128;
    let ex: i128 = b.x as i128 - a.x as i128;
    proof {
        assert(-0x10000000000000000000000000 <= (cx - a.x) * (b.y - a.y)
            <= 0x10000000000000000000000000) by (nonlinear_arith)
            requires
                -0x2100000000000 <= cx - a.x <= 0x2100000000000,
                -0x200000000000 <= b.y - a.y <= 0x200000000000;
        assert(-0x10000000000000000000000000 <= (cy - a.y) * (b.x - a.x)
            <= 0x10000000000000000000000000) by (nonlinear_arith)
            requires
                -0x2100000000000 <= cy - a.y <= 0x2100000000000,
                -0x200000000000 <= b.x - a.x <= 0x200000000000;
    }
    let p: i128 = dx * ey - dy * ex;
    let q: i128 = p / (SCALE as i128);
    sat_narrow(q)
}

/// Scan-converts one triangle in fixed-point screen coordinates into the
/// point list, depth-testing each pixel against the buffer.
///
/// The triangle is walked over its screen-clamped bounding box; a pixel is
/// written exactly when `pix_pass` holds of it, and then carries the
/// interpolated depth `pix_depth` and the given color.
pub fn fill_triangle(
    width: u32, height: u32, points: &mut Vec<ScreenPoint>, zbuf: &mut Vec<i64>,
    va: Vector3, vb: Vector3, vc: Vector3, color: Color3,
)
    requires
        width >= 1,
        height >= 1,
        old(zbuf)@.len() == width as int * height as int,
        bounded(va),
        bounded(vb),
        bounded(vc),
    ensures
        zb_filled(va, vb, vc, width as int, height as int, old(zbuf)@, final(zbuf)@),
        pts_filled(va, vb, vc, width as int, height as int, old(zbuf)@, old(points)@,
            final(points)@, color),
{
    let ghost w = width as int;
    let ghost h = height as int;
    let ghost zb0 = zbuf@;
    let ghost pts0 = points@;
    let zlen = zbuf.len();

    // Coarse near/far rejection: entirely outside the unit depth range.
    if (va.z > SCALE && vb.z > SCALE && vc.z > SCALE)
        || (va.z < -SCALE && vb.z < -SCALE && vc.z < -SCALE) {
        return;
    }
    // A vertex at zero depth has no reciprocal; the triangle is dropped.
    if va.z == 0 || vb.z == 0 || vc.z == 0 {
        return;
    }
    let area = edge_function(&va, &vb, vc.x, vc.y);
    if area == 0 {
        return;
    }

    let za = fx_div(SCALE, va.z);
    let zb = fx_div(SCALE, vb.z);
    let zc = fx_div(SCALE, vc.z);

    let w64 = width as i64;
    let h64 = height as i64;
    let x0 = {
        let m = min3(va.x, vb.x, vc.x);
        if m < 0 { 0 } else { m }
    };
    let x1 = {
        let m = max3(va.x, vb.x, vc.x);
        let lim = (w64 - 1) * SCALE;
        if m > lim { lim } else { m }
    };
    let y0 = {
        let m = min3(va.y, vb.y, vc.y);
        if m < 0 { 0 } else { m }
    };
    let y1 = {
        let m = max3(va.y, vb.y, vc.y);
        let lim = (h64 - 1) * SCALE;
        if m > lim { lim } else { m }
    };
    let px0 = x0 / SCALE;
    let px1 = ceil_scale(x1);
    let py0 = y0 / SCALE;
    let py1 = ceil_scale(y1);
    proof {
        assert(x0 as int == x_lo(va, vb, vc));
        assert(x1 as int == x_hi(va, vb, vc, w));
        assert(px0 as int == px_lo(va, vb, vc));
        assert(px1 as int == px_hi(va, vb, vc, w));
        assert(py0 as int == py_lo(va, vb, vc));
        assert(py1 as int == py_hi(va, vb, vc, h));
        lemma_floor_nonneg(x0 as int);
        lemma_floor_nonneg(y0 as int);
        lemma_ceil_le(x1 as int, w - 1);
        lemma_ceil_le(y1 as int, h - 1);
    }

    let mut py: i64 = py0;
    while py <= py1
        invariant
            width >= 1,
            height >= 1,
            w == width as int,
            h == height as int,
            bounded(va),
            bounded(vb),
            bounded(vc),
            !tri_rejected(va, vb, vc),
            za as int == recip_z(va),
            zb as int == recip_z(vb),
            zc as int == recip_z(vc),
            area as int == area3(va, vb, vc),
            px0 as int == px_lo(va, vb, vc),
            px1 as int == px_hi(va, vb, vc, w),
            py0 as int == py_lo(va, vb, vc),
            py1 as int == py_hi(va, vb, vc, h),
            0 <= px0,
            px1 < w64,
            0 <= py0 <= py,
            py1 < h64,
            zbuf@.len() == zb0.len(),
            zb0.len() == w * h,
            zlen as int == w * h,
            forall|off: int|
                0 <= off < zb0.len() ==> #[trigger] zbuf@[off] == (
                if visited_at(va, vb, vc, w, h, off, py as int, px0 as int)
                    && pass_at(va, vb, vc, w, h, zb0[off] as int, off) {
                    depth_at(va, vb, vc, w, off) as i64
                } else {
                    zb0[off]
                }),
            pts0.len() <= points@.len(),
            forall|i: int| 0 <= i < pts0.len() ==> #[trigger] points@[i] == pts0[i],
            forall|i: int|
                pts0.len() <= i < points@.len() ==> {
                    let p = #[trigger] points@[i];
                    &&& 0 <= p.x < w
                    &&& 0 <= p.y < h
                    &&& p.color == color
                    &&& visited_at(va, vb, vc, w, h, p.y * w + p.x, py as int, px0 as int)
                    &&& pass_at(va, vb, vc, w, h, zb0[p.y * w + p.x] as int, p.y * w + p.x)
                },
            forall|off: int|
                0 <= off < zb0.len()
                    && visited_at(va, vb, vc, w, h, off, py as int, px0 as int)
                    && #[trigger] pass_at(va, vb, vc, w, h, zb0[off] as int, off)
                    ==> exists|i: int|
                    pts0.len() <= i < points@.len()
                        && (#[trigger] points@[i]).y * w + points@[i].x == off,
            forall|i: int, j: int|
                pts0.len() <= i < j < points@.len()
                    ==> !((#[trigger] points@[i]).x == (#[trigger] points@[j]).x
                        && points@[i].y == points@[j].y),
        decreases (if py <= py1 { py1 + 1 - py } else { 0int }),
    {
        let mut px: i64 = px0;
        while px <= px1
            invariant
                width >= 1,
                height >= 1,
                w == width as int,
                h == height as int,
                bounded(va),
                bounded(vb),
                bounded(vc),
                !tri_rejected(va, vb, vc),
                za as int == recip_z(va),
                zb as int == recip_z(vb),
                zc as int == recip_z(vc),
                area as int == area3(va, vb, vc),
                px0 as int == px_lo(va, vb, vc),
                px1 as int == px_hi(va, vb, vc, w),
                py0 as int == py_lo(va, vb, vc),
                py1 as int == py_hi(va, vb, vc, h),
                0 <= px0 <= px,
                px1 < w64,
                0 <= py0 <= py <= py1,
                py1 < h64,
                zbuf@.len() == zb0.len(),
                zb0.len() == w * h,
                zlen as int == w * h,
                forall|off: int|
                    0 <= off < zb0.len() ==> #[trigger] zbuf@[off] == (
                    if visited_at(va, vb, vc, w, h, off, py as int, px as int)
                        && pass_at(va, vb, vc, w, h, zb0[off] as int, off) {
                        depth_at(va, vb, vc, w, off) as i64
                    } else {
                        zb0[off]
                    }),
                pts0.len() <= points@.len(),
                forall|i: int| 0 <= i < pts0.len() ==> #[trigger] points@[i] == pts0[i],
                forall|i: int|
                    pts0.len() <= i < points@.len() ==> {
                        let p = #[trigger] points@[i];
                        &&& 0 <= p.x < w
                        &&& 0 <= p.y < h
                        &&& p.color == color
                        &&& visited_at(va, vb, vc, w, h, p.y * w + p.x, py as int, px as int)
                        &&& pass_at(va, vb, vc, w, h, zb0[p.y * w + p.x] as int, p.y * w + p.x)
                    },
                forall|off: int|
                    0 <= off < zb0.len()
                        && visited_at(va, vb, vc, w, h, off, py as int, px as int)
                        && #[trigger] pass_at(va, vb, vc, w, h, zb0[off] as int, off)
                        ==> exists|i: int|
                        pts0.len() <= i < points@.len()
                            && (#[trigger] points@[i]).y * w + points@[i].x == off,
                forall|i: int, j: int|
                    pts0.len() <= i < j < points@.len()
                        ==> !((#[trigger] points@[i]).x == (#[trigger] points@[j]).x
                            && points@[i].y == points@[j].y),
            decreases (if px <= px1 { px1 + 1 - px } else { 0int }),
        {
            let ghost off_g = py as int * w + px as int;
            proof {
                lemma_off_decompose(w, px as int, py as int);
                lemma_mul_inequality(py as int, h - 1, w);
                assert((h - 1) * w == h * w - w) by (nonlinear_arith);
                lemma_visit_step(va, vb, vc, w, h, py as int, px as int);
                assert(!visited_at(va, vb, vc, w, h, off_g, py as int, px as int));
                assert(visited_at(va, vb, vc, w, h, off_g, py as int, px as int + 1)
                    == in_bbox(va, vb, vc, w, h, px as int, py as int));
            }
            let cx = px * SCALE;
            let cy = py * SCALE;
            let wa = edge_function(&vb, &vc, cx, cy);
            let wb = edge_function(&vc, &va, cx, cy);
            let wc = edge_function(&va, &vb, cx, cy);
            let inside = wa >= 0 && wb >= 0 && wc >= 0;
            if inside {
                proof {
                    lemma_inb_product(wa as int, za as int);
                    lemma_inb_product(wb as int, zb as int);
                    lemma_inb_product(wc as int, zc as int);
                }
                let denom: i128 = (wa as i128) * (za as i128) + (wb as i128) * (zb as i128)
                    + (wc as i128) * (zc as i128);
                if denom != 0 {
                    proof {
                        assert(-0x10000000000000000000000 <= (area as int) * (SCALE as int)
                            <= 0x10000000000000000000000) by (nonlinear_arith)
                            requires -0x100000000000 <= area as int <= 0x100000000000;
                    }
                    let num: i128 = (area as i128) * (SCALE as i128) * (SCALE as i128);
                    let z = tdiv128(num, denom);
                    let off = (py as usize) * (width as usize) + (px as usize);
                    if -(SCALE as i128) < z && z < SCALE as i128 && z < (zbuf[off] as i128) {
                        proof {
                            assert(zbuf@[off_g] == zb0[off_g]);
                            assert(pass_at(va, vb, vc, w, h, zb0[off_g] as int, off_g));
                        }
                        zbuf[off] = z as i64;
                        let ghost old_pts = points@;
                        points.push(ScreenPoint { x: px, y: py, color });
                        proof {
                            assert forall|o2: int|
                                0 <= o2 < zb0.len()
                                    && visited_at(va, vb, vc, w, h, o2, py as int, px as int + 1)
                                    && #[trigger] pass_at(va, vb, vc, w, h, zb0[o2] as int, o2)
                                    implies exists|i: int|
                                    pts0.len() <= i < points@.len()
                                        && (#[trigger] points@[i]).y * w + points@[i].x
                                        == o2 by {
                                if o2 == off_g {
                                    assert(points@[points@.len() - 1].y * w
                                        + points@[points@.len() - 1].x == o2);
                                } else {
                                    assert(visited_at(va, vb, vc, w, h, o2, py as int, px as int));
                                    let i = choose|i: int|
                                        pts0.len() <= i < old_pts.len()
                                            && (#[trigger] old_pts[i]).y * w + old_pts[i].x
                                            == o2;
                                    assert(points@[i].y * w + points@[i].x == o2);
                                }
                            }
                            assert forall|i: int, j: int|
                                pts0.len() <= i < j < points@.len()
                                    implies !((#[trigger] points@[i]).x == (#[trigger] points@[j]).x
                                        && points@[i].y == points@[j].y) by {
                                if j == points@.len() - 1 {
                                    let p = points@[i];
                                    if p.x == px as int && p.y == py as int {
                                        lemma_off_decompose(w, p.x as int, p.y as int);
                                    }
                                }
                            }
                        }
                    } else {
                        proof {
                            assert(zbuf@[off_g] == zb0[off_g]);
                            assert(!pass_at(va, vb, vc, w, h, zb0[off_g] as int, off_g));
                        }
                    }
                } else {
                    proof {
                        assert(!pass_at(va, vb, vc, w, h, zb0[off_g] as int, off_g));
                    }
                }
            } else {
                proof {
                    assert(!pix_inside(va, vb, vc, px as int, py as int));
                    assert(!pass_at(va, vb, vc, w, h, zb0[off_g] as int, off_g));
                }
            }
            px = px + 1;
        }
        proof {
            lemma_row_done(va, vb, vc, w, h, py as int, px as int);
        }
        py = py + 1;
    }
    proof {
        lemma_scan_done(va, vb, vc, w, h, py as int, px0 as int);
    }
}

/// Advancing the column pointer changes only whether the pixel under it
/// counts as visited.
proof fn lemma_visit_step(va: Vector3, vb: Vector3, vc: Vector3, w: int, h: int, py: int, px: int)
    requires
        w >= 1,
        0 <= px < w,
        0 <= py,
    ensures
        forall|off: int|
            0 <= off && off != py * w + px
                ==> #[trigger] visited_at(va, vb, vc, w, h, off, py, px + 1)
                == visited_at(va, vb, vc, w, h, off, py, px),
{
    assert forall|off: int| 0 <= off && off != py * w + px
        implies #[trigger] visited_at(va, vb, vc, w, h, off, py, px + 1)
            == visited_at(va, vb, vc, w, h, off, py, px) by {
        let opx = off % w;
        let opy = off / w;
        vstd::arithmetic::div_mod::lemma_fundamental_div_mod(off, w);
        if opy == py && opx == px {
            assert(off == py * w + px) by (nonlinear_arith)
                requires off == w * (off / w) + off % w, off / w == py, off % w == px;
        }
    }
}

/// Finishing a row makes the visited set the rows strictly below the next.
proof fn lemma_row_done(va: Vector3, vb: Vector3, vc: Vector3, w: int, h: int, py: int, px: int)
    requires
        w >= 1,
        px > px_hi(va, vb, vc, w),
    ensures
        forall|off: int|
            #[trigger] visited_at(va, vb, vc, w, h, off, py + 1, px_lo(va, vb, vc))
                == visited_at(va, vb, vc, w, h, off, py, px),
{
}

/// When the row pointer passes the last row, the visited set is the whole
/// scanned bounding box.
proof fn lemma_scan_done(va: Vector3, vb: Vector3, vc: Vector3, w: int, h: int, py: int, px_start: int)
    requires
        w >= 1,
        px_start == px_lo(va, vb, vc),
        py > py_hi(va, vb, vc, h),
    ensures
        forall|off: int|
            #[trigger] visited_at(va, vb, vc, w, h, off, py, px_start)
                == in_bbox(va, vb, vc, w, h, off % w, off / w),
{
}

/// One vertex pushed through the pipeline: its model-space point, its
/// camera-space point after the perspective divide, its screen-space point
/// (with the camera depth kept in the third coordinate), and whether the
/// divide was defined.
#[derive(Clone, Copy, PartialEq, Eq, Structural, Debug)]
pub struct ProjVert {
    pub obj: Vector3,
    pub cam: Vector3,
    pub scr: Vector3,
    pub valid: bool,
}

/// Half a span in fixed-point pixels.
pub open spec fn half_span(n: int) -> int {
    tdiv(n * SCALE, 2)
}

/// The zero vector.
pub open spec fn zerov() -> Vector3 {
    Vector3 { x: 0, y: 0, z: 0 }
}

/// What projecting one vertex yields: the model transform, then the
/// combined transform, the perspective divide by the returned weight (a
/// zero weight marks the vertex invalid), and the device-to-screen map
/// `((1 + x) w/2, (1 - y) h/2)` with the y axis flipped.
pub open spec fn spec_proj_vert(m: Matrix4, om: Matrix4, w: int, h: int, v: Vector3) -> ProjVert {
    let (ox, oy, oz, _ow) = spec_transform(om, v);
    let o = Vector3 { x: ox as i64, y: oy as i64, z: oz as i64 };
    let (cx, cy, cz, cw) = spec_transform(m, o);
    if cw == 0 {
        ProjVert { obj: o, cam: zerov(), scr: zerov(), valid: false }
    } else {
        let c = Vector3 {
            x: sat(tdiv(cx * SCALE, cw)) as i64,
            y: sat(tdiv(cy * SCALE, cw)) as i64,
            z: sat(tdiv(cz * SCALE, cw)) as i64,
        };
        let sx = sat(tdiv((SCALE + c.x) * half_span(w), SCALE as int)) as i64;
        let sy = sat(tdiv((SCALE - c.y) * half_span(h), SCALE as int)) as i64;
        ProjVert { obj: o, cam: c, scr: Vector3 { x: sx, y: sy, z: c.z }, valid: true }
    }
}

/// Every coordinate a projected vertex carries lies in the saturation band.
pub open spec fn pv_bounded(p: ProjVert) -> bool {
    bounded(p.obj) && bounded(p.cam) && bounded(p.scr)
}

/// A face is skipped when a vertex of it had no perspective divide or when
/// its model-space edges are collinear, leaving it no shading normal.
pub open spec fn face_skipped(pv: Seq<ProjVert>, f: crate::mesh::Face) -> bool {
    ||| !pv[f.a as int].valid
    ||| !pv[f.b as int].valid
    ||| !pv[f.c as int].valid
    ||| !crate::vector::normal_defined(pv[f.a as int].obj, pv[f.b as int].obj, pv[f.c as int].obj)
}

/// Whether the face's winding is swapped before filling: the camera-space
/// normal either is degenerate or points away after normalization.
pub open spec fn face_flipped(pv: Seq<ProjVert>, f: crate::mesh::Face) -> bool {
    let n = crate::vector::edge_cross3(pv[f.a as int].cam, pv[f.b as int].cam, pv[f.c as int].cam);
    if n == (0int, 0int, 0int) {
        true
    } else {
        crate::vector::norm3(n.0, n.1, n.2).2 < 0
    }
}

/// The screen triangle a face submits, winding-swapped for back faces.
pub open spec fn face_screen_tri(pv: Seq<ProjVert>, f: crate::mesh::Face) -> (Vector3, Vector3, Vector3) {
    if face_flipped(pv, f) {
        (pv[f.a as int].scr, pv[f.c as int].scr, pv[f.b as int].scr)
    } else {
        (pv[f.a as int].scr, pv[f.b as int].scr, pv[f.c as int].scr)
    }
}

/// A gray level from a fixed-point shading value: `(1 + s) * 128` brought
/// to a byte, clamped.
pub open spec fn gray_of(sh: int) -> int {
    let g = tdiv(SCALE + sh, 512);
    if g < 0 {
        0
    } else if g > 255 {
        255
    } else {
        g
    }
}

/// The flat shading of a face under a directional light: minus the light
/// against the model-space face normal, as a gray level.
pub open spec fn spec_shadow_color(pv: Seq<ProjVert>, light: Vector3, f: crate::mesh::Face) -> Color3 {
    let n = crate::vector::normal_of3(pv[f.a as int].obj, pv[f.b as int].obj, pv[f.c as int].obj);
    let sh = -crate::vector::dot3(light.x as int, light.y as int, light.z as int, n.0, n.1, n.2);
    Color3 { r: gray_of(sh) as u8, g: gray_of(sh) as u8, b: gray_of(sh) as u8 }
}

/// The normal-visualization color of a face: each normal component mapped
/// to a byte, the third by magnitude.
pub open spec fn spec_normal_color(pv: Seq<ProjVert>, f: crate::mesh::Face) -> Color3 {
    let n = crate::vector::normal_of3(pv[f.a as int].obj, pv[f.b as int].obj, pv[f.c as int].obj);
    Color3 {
        r: gray_of(n.0) as u8,
        g: gray_of(n.1) as u8,
        b: gray_of(crate::vector::abs1(n.2)) as u8,
    }
}

/// The depth buffer after one triangle, as a function.
pub open spec fn zb_after(
    va: Vector3, vb: Vector3, vc: Vector3, w: int, h: int, zb0: Seq<i64>,
) -> Seq<i64> {
    Seq::new(zb0.len(), |off: int|
        if pass_at(va, vb, vc, w, h, zb0[off] as int, off) {
            depth_at(va, vb, vc, w, off) as i64
        } else {
            zb0[off]
        })
}

/// The depth buffer after the first `n` faces of a mesh, each skipped or
/// scan-converted in submission order.
pub open spec fn zb_fold(
    faces: Seq<crate::mesh::Face>, pv: Seq<ProjVert>, w: int, h: int, zb0: Seq<i64>, n: int,
) -> Seq<i64>
    decreases n,
{
    if n <= 0 {
        zb0
    } else {
        let prev = zb_fold(faces, pv, w, h, zb0, n - 1);
        let f = faces[n - 1];
        if face_skipped(pv, f) {
            prev
        } else {
            let (ta, tb, tc) = face_screen_tri(pv, f);
            zb_after(ta, tb, tc, w, h, prev)
        }
    }
}

/// Face `k` is drawn and covers the offset `off`: the pixel passes the
/// depth test against the buffer as the earlier faces left it.
pub open spec fn face_pixel_covered(
    faces: Seq<crate::mesh::Face>, pv: Seq<ProjVert>, w: int, h: int, zb0: Seq<i64>,
    k: int, off: int,
) -> bool {
    let f = faces[k];
    let tri = face_screen_tri(pv, f);
    let prev = zb_fold(faces, pv, w, h, zb0, k);
    &&& 0 <= k < faces.len()
    &&& !face_skipped(pv, f)
    &&& 0 <= off < zb0.len()
    &&& pass_at(tri.0, tri.1, tri.2, w, h, prev[off] as int, off)
}

/// A point of the output belongs to face `k`: the face was drawn, the
/// point carries its color, and its pixel passed the depth test against
/// the buffer as the earlier faces left it.
pub open spec fn point_from_face(
    faces: Seq<crate::mesh::Face>, pv: Seq<ProjVert>, colors: Seq<Color3>, w: int, h: int,
    zb0: Seq<i64>, p: ScreenPoint, k: int,
) -> bool {
    let f = faces[k];
    let prev = zb_fold(faces, pv, w, h, zb0, k);
    let tri = face_screen_tri(pv, f);
    &&& 0 <= k < faces.len()
    &&& !face_skipped(pv, f)
    &&& p.color == colors[k]
    &&& pass_at(tri.0, tri.1, tri.2, w, h, prev[p.y * w + p.x] as int, p.y * w + p.x)
}

/// Pushes every vertex through the model and combined transforms, the
/// perspective divide, and the screen map.
pub fn project_vertices(
    m: &Matrix4, om: &Matrix4, width: u32, height: u32, verts: &Vec<Vertex>,
) -> (r: Vec<ProjVert>)
    requires
        m_bounded(*m),
        m_bounded(*om),
        forall|i: int| 0 <= i < verts@.len() ==> bounded((#[trigger] verts@[i]).pt),
    ensures
        r@.len() == verts@.len(),
        forall|i: int|
            0 <= i < verts@.len() ==> #[trigger] r@[i] == spec_proj_vert(
                *m, *om, width as int, height as int, verts@[i].pt),
        forall|i: int| 0 <= i < r@.len() ==> pv_bounded(#[trigger] r@[i]),
{
    let ghost w = width as int;
    let ghost h = height as int;
    let mut r: Vec<ProjVert> = Vec::new();
    let mut i: usize = 0;
    while i < verts.len()
        invariant
            w == width as int,
            h == height as int,
            m_bounded(*m),
            m_bounded(*om),
            forall|j: int| 0 <= j < verts@.len() ==> bounded((#[trigger] verts@[j]).pt),
            i <= verts@.len(),
            r@.len() == i,
            forall|j: int|
                0 <= j < i ==> #[trigger] r@[j] == spec_proj_vert(*m, *om, w, h, verts@[j].pt),
            forall|j: int| 0 <= j < i ==> pv_bounded(#[trigger] r@[j]),
        decreases verts@.len() - i,
    {
        let v = verts[i].pt;
        let (o, _ow) = om.transform_point(&v);
        let (p, pw) = m.transform_point(&o);
        if pw == 0 {
            let npv = ProjVert { obj: o, cam: Vector3::zero(), scr: Vector3::zero(), valid: false };
            proof {
                assert(npv == spec_proj_vert(*m, *om, w, h, verts@[i as int].pt));
            }
            r.push(npv);
        } else {
            let c = p.div_by(pw);
            let halfw = (width as i64) * SCALE / 2;
            let halfh = (height as i64) * SCALE / 2;
            proof {
                assert(halfw as int == half_span(w));
                assert(halfh as int == half_span(h));
            }
            let sx = crate::fixed::fx_mul(SCALE + c.x, halfw);
            let sy = crate::fixed::fx_mul(SCALE - c.y, halfh);
            let npv = ProjVert {
                obj: o,
                cam: c,
                scr: Vector3 { x: sx, y: sy, z: c.z },
                valid: true,
            };
            proof {
                assert(npv == spec_proj_vert(*m, *om, w, h, verts@[i as int].pt));
            }
            r.push(npv);
        }
        i = i + 1;
    }
    r
}

/// The flat directional shading of each face, from its model-space normal
/// against the light; a skipped face keeps a black placeholder.
pub fn shadow_colors(pv: &Vec<ProjVert>, faces: &Vec<Face>, light: &Vector3) -> (r: Vec<Color3>)
    requires
        bounded(*light),
        forall|i: int|
            0 <= i < faces@.len() ==> ((#[trigger] faces@[i]).a < pv@.len()
                && faces@[i].b < pv@.len() && faces@[i].c < pv@.len()),
        forall|i: int| 0 <= i < pv@.len() ==> pv_bounded(#[trigger] pv@[i]),
    ensures
        r@.len() == faces@.len(),
        forall|k: int|
            0 <= k < faces@.len() && !face_skipped(pv@, faces@[k])
                ==> #[trigger] r@[k] == spec_shadow_color(pv@, *light, faces@[k]),
{
    let mut r: Vec<Color3> = Vec::new();
    let mut k: usize = 0;
    while k < faces.len()
        invariant
            bounded(*light),
            forall|i: int|
                0 <= i < faces@.len() ==> ((#[trigger] faces@[i]).a < pv@.len()
                    && faces@[i].b < pv@.len() && faces@[i].c < pv@.len()),
            forall|i: int| 0 <= i < pv@.len() ==> pv_bounded(#[trigger] pv@[i]),
            k <= faces@.len(),
            r@.len() == k,
            forall|j: int|
                0 <= j < k && !face_skipped(pv@, faces@[j])
                    ==> #[trigger] r@[j] == spec_shadow_color(pv@, *light, faces@[j]),
        decreases faces@.len() - k,
    {
        let fa = faces[k].a;
        let fb = faces[k].b;
        let fc = faces[k].c;
        let pa = pv[fa];
        let pb = pv[fb];
        let pc = pv[fc];
        let e1 = pb.obj.sub(&pa.obj);
        let e2 = pc.obj.sub(&pa.obj);
        let n0 = e1.cross(&e2);
        if pa.valid && pb.valid && pc.valid && !(n0.x == 0 && n0.y == 0 && n0.z == 0) {
            let normal = n0.normalize();
            let sh = -light.dot(&normal);
            let g64 = (SCALE + sh) / 512;
            let g = if g64 < 0 { 0u8 } else if g64 > 255 { 255u8 } else { g64 as u8 };
            r.push(Color3 { r: g, g: g, b: g });
        } else {
            r.push(Color3 { r: 0, g: 0, b: 0 });
        }
        k = k + 1;
    }
    r
}

/// The normal-visualization color of each face; a skipped face keeps a
/// black placeholder.
pub fn normal_colors(pv: &Vec<ProjVert>, faces: &Vec<Face>) -> (r: Vec<Color3>)
    requires
        forall|i: int|
            0 <= i < faces@.len() ==> ((#[trigger] faces@[i]).a < pv@.len()
                && faces@[i].b < pv@.len() && faces@[i].c < pv@.len()),
        forall|i: int| 0 <= i < pv@.len() ==> pv_bounded(#[trigger] pv@[i]),
    ensures
        r@.len() == faces@.len(),
        forall|k: int|
            0 <= k < faces@.len() && !face_skipped(pv@, faces@[k])
                ==> #[trigger] r@[k] == spec_normal_color(pv@, faces@[k]),
{
    let mut r: Vec<Color3> = Vec::new();
    let mut k: usize = 0;
    while k < faces.len()
        invariant
            forall|i: int|
                0 <= i < faces@.len() ==> ((#[trigger] faces@[i]).a < pv@.len()
                    && faces@[i].b < pv@.len() && faces@[i].c < pv@.len()),
            forall|i: int| 0 <= i < pv@.len() ==> pv_bounded(#[trigger] pv@[i]),
            k <= faces@.len(),
            r@.len() == k,
            forall|j: int|
                0 <= j < k && !face_skipped(pv@, faces@[j])
                    ==> #[trigger] r@[j] == spec_normal_color(pv@, faces@[j]),
        decreases faces@.len() - k,
    {
        let fa = faces[k].a;
        let fb = faces[k].b;
        let fc = faces[k].c;
        let pa = pv[fa];
        let pb = pv[fb];
        let pc = pv[fc];
        let e1 = pb.obj.sub(&pa.obj);
        let e2 = pc.obj.sub(&pa.obj);
        let n0 = e1.cross(&e2);
        if pa.valid && pb.valid && pc.valid && !(n0.x == 0 && n0.y == 0 && n0.z == 0) {
            let normal = n0.normalize();
            let gr64 = (SCALE + normal.x) / 512;
            let gg64 = (SCALE + normal.y) / 512;
            let az = if normal.z < 0 { -normal.z } else { normal.z };
            let gb64 = (SCALE + az) / 512;
            let gr = if gr64 < 0 { 0u8 } else if gr64 > 255 { 255u8 } else { gr64 as u8 };
            let gg = if gg64 < 0 { 0u8 } else if gg64 > 255 { 255u8 } else { gg64 as u8 };
            let gb = if gb64 < 0 { 0u8 } else if gb64 > 255 { 255u8 } else { gb64 as u8 };
            r.push(Color3 { r: gr, g: gg, b: gb });
        } else {
            r.push(Color3 { r: 0, g: 0, b: 0 });
        }
        k = k + 1;
    }
    r
}

/// Scan-converts every face, in submission order, against the depth
/// buffer: the buffer ends exactly as the face fold states, and every
/// emitted point is an in-screen fragment of one of the drawn faces.
pub fn rasterize_faces(
    width: u32, height: u32, zbuf: &mut Vec<i64>, pv: &Vec<ProjVert>, faces: &Vec<Face>,
    colors: &Vec<Color3>,
) -> (points: Vec<ScreenPoint>)
    requires
        width >= 1,
        height >= 1,
        old(zbuf)@.len() == width as int * height as int,
        colors@.len() == faces@.len(),
        forall|i: int|
            0 <= i < faces@.len() ==> ((#[trigger] faces@[i]).a < pv@.len()
                && faces@[i].b < pv@.len() && faces@[i].c < pv@.len()),
        forall|i: int| 0 <= i < pv@.len() ==> pv_bounded(#[trigger] pv@[i]),
    ensures
        final(zbuf)@ == zb_fold(faces@, pv@, width as int, height as int, old(zbuf)@,
            faces@.len() as int),
        forall|j: int|
            0 <= j < points@.len() ==> {
                let p = #[trigger] points@[j];
                &&& 0 <= p.x < width as int
                &&& 0 <= p.y < height as int
                &&& exists|k: int|
                    point_from_face(faces@, pv@, colors@, width as int, height as int,
                        old(zbuf)@, p, k)
            },
        forall|k: int, off: int|
            #[trigger] face_pixel_covered(faces@, pv@, width as int, height as int, old(zbuf)@,
                k, off) ==> exists|j: int|
                0 <= j < points@.len() && (#[trigger] points@[j]).y * (width as int)
                    + points@[j].x == off && points@[j].color == colors@[k],
{
    let ghost w = width as int;
    let ghost h = height as int;
    let ghost zb0 = zbuf@;
    let mut points: Vec<ScreenPoint> = Vec::new();
    let mut k: usize = 0;
    while k < faces.len()
        invariant
            width >= 1,
            height >= 1,
            w == width as int,
            h == height as int,
            zb0.len() == w * h,
            colors@.len() == faces@.len(),
            forall|i: int|
                0 <= i < faces@.len() ==> ((#[trigger] faces@[i]).a < pv@.len()
                    && faces@[i].b < pv@.len() && faces@[i].c < pv@.len()),
            forall|i: int| 0 <= i < pv@.len() ==> pv_bounded(#[trigger] pv@[i]),
            k <= faces@.len(),
            zbuf@ == zb_fold(faces@, pv@, w, h, zb0, k as int),
            zbuf@.len() == zb0.len(),
            forall|j: int|
                0 <= j < points@.len() ==> {
                    let p = #[trigger] points@[j];
                    &&& 0 <= p.x < w
                    &&& 0 <= p.y < h
                    &&& exists|kk: int| point_from_face(faces@, pv@, colors@, w, h, zb0, p, kk)
                },
            forall|k2: int, off: int|
                k2 < k as int && #[trigger] face_pixel_covered(faces@, pv@, w, h, zb0, k2, off)
                    ==> exists|j: int|
                    0 <= j < points@.len() && (#[trigger] points@[j]).y * w + points@[j].x
                        == off && points@[j].color == colors@[k2],
        decreases faces@.len() - k,
    {
        let fa = faces[k].a;
        let fb = faces[k].b;
        let fc = faces[k].c;
        let pa = pv[fa];
        let pb = pv[fb];
        let pc = pv[fc];
        let e1 = pb.obj.sub(&pa.obj);
        let e2 = pc.obj.sub(&pa.obj);
        let n0 = e1.cross(&e2);
        if pa.valid && pb.valid && pc.valid && !(n0.x == 0 && n0.y == 0 && n0.z == 0) {
            proof {
                assert(!face_skipped(pv@, faces@[k as int]));
            }
            let color = colors[k];
            let ce1 = pb.cam.sub(&pa.cam);
            let ce2 = pc.cam.sub(&pa.cam);
            let cn = ce1.cross(&ce2);
            let flipped = if cn.x == 0 && cn.y == 0 && cn.z == 0 {
                true
            } else {
                let cnn = cn.normalize();
                cnn.z < 0
            };
            proof {
                assert(flipped == face_flipped(pv@, faces@[k as int]));
            }
            let ghost prev = zbuf@;
            let ghost old_points = points@;
            if flipped {
                fill_triangle(width, height, &mut points, zbuf, pa.scr, pc.scr, pb.scr, color);
            } else {
                fill_triangle(width, height, &mut points, zbuf, pa.scr, pb.scr, pc.scr, color);
            }
            proof {
                let tri = face_screen_tri(pv@, faces@[k as int]);
                assert(zbuf@ =~= zb_after(tri.0, tri.1, tri.2, w, h, prev));
                assert(zbuf@ == zb_fold(faces@, pv@, w, h, zb0, k as int + 1));
                assert forall|j: int| 0 <= j < points@.len() implies {
                    let p = #[trigger] points@[j];
                    &&& 0 <= p.x < w
                    &&& 0 <= p.y < h
                    &&& exists|kk: int| point_from_face(faces@, pv@, colors@, w, h, zb0, p, kk)
                } by {
                    let p = points@[j];
                    if j < old_points.len() {
                        assert(points@[j] == old_points[j]);
                    } else {
                        assert(pass_at(tri.0, tri.1, tri.2, w, h, prev[p.y * w + p.x] as int,
                            p.y * w + p.x));
                        assert(point_from_face(faces@, pv@, colors@, w, h, zb0, p, k as int));
                    }
                }
                assert forall|k2: int, off: int|
                    k2 < k as int + 1 && #[trigger] face_pixel_covered(faces@, pv@, w, h, zb0,
                        k2, off) implies exists|j: int|
                    0 <= j < points@.len() && (#[trigger] points@[j]).y * w + points@[j].x
                        == off && points@[j].color == colors@[k2] by {
                    if k2 == k as int {
                        assert(pass_at(tri.0, tri.1, tri.2, w, h, prev[off] as int, off));
                        let j = choose|j: int|
                            old_points.len() <= j < points@.len()
                                && (#[trigger] points@[j]).y * w + points@[j].x == off;
                        assert(points@[j].color == color);
                    } else {
                        let j = choose|j: int|
                            0 <= j < old_points.len() && (#[trigger] old_points[j]).y * w
                                + old_points[j].x == off && old_points[j].color == colors@[k2];
                        assert(points@[j] == old_points[j]);
                    }
                }
            }
        } else {
            proof {
                assert(face_skipped(pv@, faces@[k as int]));
                assert(zbuf@ == zb_fold(faces@, pv@, w, h, zb0, k as int + 1));
                assert forall|off: int|
                    !(#[trigger] face_pixel_covered(faces@, pv@, w, h, zb0, k as int,
                        off)) by {}
            }
        }
        k = k + 1;
    }
    points
}

/// A wireframe line segment in fixed-point screen coordinates.
#[derive(Clone, Copy, PartialEq, Eq, Structural, Debug)]
pub struct Segment {
    pub x0: i64,
    pub y0: i64,
    pub x1: i64,
    pub y1: i64,
}

/// A face leaves the wireframe when a vertex of it had no perspective
/// divide.
pub open spec fn wire_skipped(pv: Seq<ProjVert>, f: Face) -> bool {
    !pv[f.a as int].valid || !pv[f.b as int].valid || !pv[f.c as int].valid
}

/// The segment between two screen points.
pub open spec fn seg_of(p: Vector3, q: Vector3) -> Segment {
    Segment { x0: p.x, y0: p.y, x1: q.x, y1: q.y }
}

/// The wireframe of the first `n` faces: three edges for each drawn face,
/// in submission order.
pub open spec fn wire_fold(faces: Seq<Face>, pv: Seq<ProjVert>, n: int) -> Seq<Segment>
    decreases n,
{
    if n <= 0 {
        Seq::empty()
    } else {
        let prev = wire_fold(faces, pv, n - 1);
        let f = faces[n - 1];
        if wire_skipped(pv, f) {
            prev
        } else {
            prev.push(seg_of(pv[f.a as int].scr, pv[f.b as int].scr)).push(
                seg_of(pv[f.b as int].scr, pv[f.c as int].scr)).push(
                seg_of(pv[f.c as int].scr, pv[f.a as int].scr))
        }
    }
}

/// The combined transform a frame uses: projection by view, and for the
/// one-matrix pipelines additionally by the model matrix.
pub open spec fn spec_view_proj(cam: crate::camera::Camera) -> Matrix4 {
    crate::matrix::spec_mm(
        crate::matrix::spec_project(cam.near, cam.far, cam.fov_scale),
        crate::camera::spec_cam_mat(cam),
    )
}

/// The model matrix of a mesh.
pub open spec fn spec_model_mat(mesh: &crate::mesh::Mesh) -> Matrix4 {
    crate::matrix::spec_rot_and_translate(mesh.rot_x, mesh.rot_y, mesh.rot_z, mesh.translation)
}

/// The projected vertices of a mesh under the given transforms.
pub open spec fn spec_pv_seq(m: Matrix4, om: Matrix4, w: int, h: int, mesh: &crate::mesh::Mesh) -> Seq<ProjVert> {
    Seq::new(mesh.vertices@.len(), |i: int| spec_proj_vert(m, om, w, h, mesh.vertices@[i].pt))
}

/// Renders a frame with flat directional shading: the mesh's vertices are
/// transformed by the model matrix and then by projection-by-view, divided,
/// mapped to the screen, shaded per face from the model-space normal
/// against the light, winding-flipped by the camera-space normal, and
/// scan-converted against the depth buffer.  The buffer ends exactly as
/// the face fold states; every returned point is an in-screen fragment of
/// a drawn face, with that face's gray level.
pub fn render_shadow(
    width: u32, height: u32, zbuf: &mut Vec<i64>, mesh: &crate::mesh::Mesh,
    cam: &crate::camera::Camera, light: &crate::light::Light,
) -> (points: Vec<ScreenPoint>)
    requires
        width >= 1,
        height >= 1,
        old(zbuf)@.len() == width as int * height as int,
        crate::mesh::mesh_wf(*mesh),
        crate::camera::cam_wf(*cam),
        cam.far != cam.near,
        bounded(light.dir),
    ensures
        ({
            let m = spec_view_proj(*cam);
            let om = spec_model_mat(mesh);
            let pv = spec_pv_seq(m, om, width as int, height as int, mesh);
            let colors = Seq::new(mesh.faces@.len(), |k: int| spec_shadow_color(pv, light.dir,
                mesh.faces@[k]));
            &&& final(zbuf)@ == zb_fold(mesh.faces@, pv, width as int, height as int,
                old(zbuf)@, mesh.faces@.len() as int)
            &&& forall|j: int|
                0 <= j < points@.len() ==> {
                    let p = #[trigger] points@[j];
                    &&& 0 <= p.x < width as int
                    &&& 0 <= p.y < height as int
                    &&& exists|k: int|
                        point_from_face(mesh.faces@, pv, colors, width as int, height as int,
                            old(zbuf)@, p, k)
                }
            &&& forall|k: int, off: int|
                #[trigger] face_pixel_covered(mesh.faces@, pv, width as int, height as int,
                    old(zbuf)@, k, off) ==> exists|j: int|
                    0 <= j < points@.len() && (#[trigger] points@[j]).y * (width as int)
                        + points@[j].x == off && points@[j].color == colors[k]
        }),
{
    let ghost w = width as int;
    let ghost h = height as int;
    let obj_mat = mesh.get_mat();
    let cam_mat = cam.get_mat();
    let proj_mat = Matrix4::project(cam);
    let m = proj_mat.multiply(&cam_mat);
    let pv = project_vertices(&m, &obj_mat, width, height, &mesh.vertices);
    proof {
        assert(pv@ =~= spec_pv_seq(m, obj_mat, w, h, mesh));
    }
    let colors = shadow_colors(&pv, &mesh.faces, &light.dir);
    let points = rasterize_faces(width, height, zbuf, &pv, &mesh.faces, &colors);
    proof {
        let scolors = Seq::new(mesh.faces@.len(), |k: int| spec_shadow_color(pv@, light.dir,
            mesh.faces@[k]));
        assert forall|j: int| 0 <= j < points@.len() implies {
            let p = #[trigger] points@[j];
            &&& 0 <= p.x < w
            &&& 0 <= p.y < h
            &&& exists|k: int|
                point_from_face(mesh.faces@, pv@, scolors, w, h, old(zbuf)@, p, k)
        } by {
            let p = points@[j];
            let k = choose|k: int|
                point_from_face(mesh.faces@, pv@, colors@, w, h, old(zbuf)@, p, k);
            assert(point_from_face(mesh.faces@, pv@, scolors, w, h, old(zbuf)@, p, k));
        }
        assert forall|k: int, off: int|
            #[trigger] face_pixel_covered(mesh.faces@, pv@, w, h, old(zbuf)@, k, off)
                implies exists|j: int|
                0 <= j < points@.len() && (#[trigger] points@[j]).y * w + points@[j].x == off
                    && points@[j].color == scolors[k] by {
            let j = choose|j: int|
                0 <= j < points@.len() && (#[trigger] points@[j]).y * w + points@[j].x == off
                    && points@[j].color == colors@[k];
            assert(points@[j].color == scolors[k]);
        }
    }
    points
}

/// Renders a frame with normal-visualization colors through the single
/// combined projection-view-model matrix.
pub fn render_normal(
    width: u32, height: u32, zbuf: &mut Vec<i64>, mesh: &crate::mesh::Mesh,
    cam: &crate::camera::Camera,
) -> (points: Vec<ScreenPoint>)
    requires
        width >= 1,
        height >= 1,
        old(zbuf)@.len() == width as int * height as int,
        crate::mesh::mesh_wf(*mesh),
        crate::camera::cam_wf(*cam),
        cam.far != cam.near,
    ensures
        ({
            let m = crate::matrix::spec_mm(spec_view_proj(*cam), spec_model_mat(mesh));
            let om = crate::matrix::spec_identity();
            let pv = spec_pv_seq(m, om, width as int, height as int, mesh);
            let colors = Seq::new(mesh.faces@.len(), |k: int| spec_normal_color(pv,
                mesh.faces@[k]));
            &&& final(zbuf)@ == zb_fold(mesh.faces@, pv, width as int, height as int,
                old(zbuf)@, mesh.faces@.len() as int)
            &&& forall|j: int|
                0 <= j < points@.len() ==> {
                    let p = #[trigger] points@[j];
                    &&& 0 <= p.x < width as int
                    &&& 0 <= p.y < height as int
                    &&& exists|k: int|
                        point_from_face(mesh.faces@, pv, colors, width as int, height as int,
                            old(zbuf)@, p, k)
                }
            &&& forall|k: int, off: int|
                #[trigger] face_pixel_covered(mesh.faces@, pv, width as int, height as int,
                    old(zbuf)@, k, off) ==> exists|j: int|
                    0 <= j < points@.len() && (#[trigger] points@[j]).y * (width as int)
                        + points@[j].x == off && points@[j].color == colors[k]
        }),
{
    let ghost w = width as int;
    let ghost h = height as int;
    let obj_mat = mesh.get_mat();
    let cam_mat = cam.get_mat();
    let proj_mat = Matrix4::project(cam);
    let m = proj_mat.multiply(&cam_mat).multiply(&obj_mat);
    let ident = Matrix4::identity();
    let pv = project_vertices(&m, &ident, width, height, &mesh.vertices);
    proof {
        assert(pv@ =~= spec_pv_seq(m, ident, w, h, mesh));
    }
    let colors = normal_colors(&pv, &mesh.faces);
    let points = rasterize_faces(width, height, zbuf, &pv, &mesh.faces, &colors);
    proof {
        let scolors = Seq::new(mesh.faces@.len(), |k: int| spec_normal_color(pv@,
            mesh.faces@[k]));
        assert forall|j: int| 0 <= j < points@.len() implies {
            let p = #[trigger] points@[j];
            &&& 0 <= p.x < w
            &&& 0 <= p.y < h
            &&& exists|k: int|
                point_from_face(mesh.faces@, pv@, scolors, w, h, old(zbuf)@, p, k)
        } by {
            let p = points@[j];
            let k = choose|k: int|
                point_from_face(mesh.faces@, pv@, colors@, w, h, old(zbuf)@, p, k);
            assert(point_from_face(mesh.faces@, pv@, scolors, w, h, old(zbuf)@, p, k));
        }
        assert forall|k: int, off: int|
            #[trigger] face_pixel_covered(mesh.faces@, pv@, w, h, old(zbuf)@, k, off)
                implies exists|j: int|
                0 <= j < points@.len() && (#[trigger] points@[j]).y * w + points@[j].x == off
                    && points@[j].color == scolors[k] by {
            let j = choose|j: int|
                0 <= j < points@.len() && (#[trigger] points@[j]).y * w + points@[j].x == off
                    && points@[j].color == colors@[k];
            assert(points@[j].color == scolors[k]);
        }
    }
    points
}

/// Renders the mesh's edges: each drawn face contributes its three edges
/// as screen-space segments, in submission order.
pub fn render_wireframe(
    width: u32, height: u32, mesh: &crate::mesh::Mesh, cam: &crate::camera::Camera,
) -> (segs: Vec<Segment>)
    requires
        crate::mesh::mesh_wf(*mesh),
        crate::camera::cam_wf(*cam),
        cam.far != cam.near,
    ensures
        ({
            let m = crate::matrix::spec_mm(spec_view_proj(*cam), spec_model_mat(mesh));
            let om = crate::matrix::spec_identity();
            let pv = spec_pv_seq(m, om, width as int, height as int, mesh);
            segs@ == wire_fold(mesh.faces@, pv, mesh.faces@.len() as int)
        }),
{
    let ghost w = width as int;
    let ghost h = height as int;
    let obj_mat = mesh.get_mat();
    let cam_mat = cam.get_mat();
    let proj_mat = Matrix4::project(cam);
    let m = proj_mat.multiply(&cam_mat).multiply(&obj_mat);
    let ident = Matrix4::identity();
    let pv = project_vertices(&m, &ident, width, height, &mesh.vertices);
    proof {
        assert(pv@ =~= spec_pv_seq(m, ident, w, h, mesh));
    }
    let mut segs: Vec<Segment> = Vec::new();
    let mut k: usize = 0;
    while k < mesh.faces.len()
        invariant
            crate::mesh::mesh_wf(*mesh),
            pv@.len() == mesh.vertices@.len(),
            k <= mesh.faces@.len(),
            segs@ == wire_fold(mesh.faces@, pv@, k as int),
        decreases mesh.faces@.len() - k,
    {
        let fa = mesh.faces[k].a;
        let fb = mesh.faces[k].b;
        let fc = mesh.faces[k].c;
        let pa = pv[fa];
        let pb = pv[fb];
        let pc = pv[fc];
        if pa.valid && pb.valid && pc.valid {
            segs.push(Segment { x0: pa.scr.x, y0: pa.scr.y, x1: pb.scr.x, y1: pb.scr.y });
            segs.push(Segment { x0: pb.scr.x, y0: pb.scr.y, x1: pc.scr.x, y1: pc.scr.y });
            segs.push(Segment { x0: pc.scr.x, y0: pc.scr.y, x1: pa.scr.x, y1: pa.scr.y });
            proof {
                assert(segs@ =~= wire_fold(mesh.faces@, pv@, k as int + 1));
            }
        } else {
            proof {
                assert(wire_skipped(pv@, mesh.faces@[k as int]));
            }
        }
        k = k + 1;
    }
    segs
}

} // verus!
