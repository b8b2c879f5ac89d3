use softrender::fixed::SCALE;
use softrender::mesh::Color3;
use softrender::renderer::{fill_triangle, ScreenPoint};
use softrender::vector::Vector3;

fn pt(x: i64, y: i64, z: i64) -> Vector3 {
    Vector3::new(x * SCALE, y * SCALE, z)
}

fn gray(g: u8) -> Color3 {
    Color3 { r: g, g, b: g }
}

fn fresh_zbuf(w: usize, h: usize) -> Vec<i64> {
    vec![i64::MAX; w * h]
}

/// The reference inside test: the same three edge functions, computed
/// independently with exact integer arithmetic.
fn edge_ref(a: (i64, i64), b: (i64, i64), p: (i64, i64)) -> i64 {
    let v = (p.0 - a.0) as i128 * (b.1 - a.1) as i128 - (p.1 - a.1) as i128 * (b.0 - a.0) as i128;
    (v / SCALE as i128) as i64
}

fn inside_ref(a: (i64, i64), b: (i64, i64), c: (i64, i64), px: i64, py: i64) -> bool {
    let p = (px * SCALE, py * SCALE);
    edge_ref(b, c, p) >= 0 && edge_ref(c, a, p) >= 0 && edge_ref(a, b, p) >= 0
}

fn pixel_set(points: &[ScreenPoint]) -> Vec<(i64, i64)> {
    let mut v: Vec<(i64, i64)> = points.iter().map(|p| (p.x, p.y)).collect();
    v.sort();
    v
}

#[test]
fn scan_conversion_matches_point_in_triangle() {
    // The named scan-coverage triangle: (10,10), (50,10), (30,50) in
    // screen pixels, wound so that its interior is on the positive side
    // of all three edges.
    let a = pt(10, 10, -SCALE / 2);
    let b = pt(30, 50, -SCALE / 2);
    let c = pt(50, 10, -SCALE / 2);
    let mut zbuf = fresh_zbuf(64, 64);
    let mut points: Vec<ScreenPoint> = Vec::new();
    fill_triangle(64, 64, &mut points, &mut zbuf, a, b, c, gray(200));
    assert!(!points.is_empty());

    // Exactly the pixels the brute-force point-in-triangle reference
    // accepts, no more and no fewer.
    let got = pixel_set(&points);
    let mut want: Vec<(i64, i64)> = Vec::new();
    let av = (10 * SCALE, 10 * SCALE);
    let bv = (30 * SCALE, 50 * SCALE);
    let cv = (50 * SCALE, 10 * SCALE);
    for py in 0..64i64 {
        for px in 0..64i64 {
            if inside_ref(av, bv, cv, px, py) {
                want.push((px, py));
            }
        }
    }
    want.sort();
    assert_eq!(got, want);

    // Contiguous scanlines from the top row to the apex, with no gaps.
    for py in 10..=50i64 {
        let xs: Vec<i64> = got.iter().filter(|p| p.1 == py).map(|p| p.0).collect();
        assert!(!xs.is_empty(), "row {} empty", py);
        let lo = *xs.iter().min().unwrap();
        let hi = *xs.iter().max().unwrap();
        assert_eq!(xs.len() as i64, hi - lo + 1, "row {} has gaps", py);
    }
    assert!(got.iter().all(|p| p.1 >= 10 && p.1 <= 50));
}

#[test]
fn fill_writes_interpolated_depth() {
    // A triangle at constant camera depth writes that depth.
    let a = pt(10, 10, -SCALE / 2);
    let b = pt(30, 50, -SCALE / 2);
    let c = pt(50, 10, -SCALE / 2);
    let mut zbuf = fresh_zbuf(64, 64);
    let mut points: Vec<ScreenPoint> = Vec::new();
    fill_triangle(64, 64, &mut points, &mut zbuf, a, b, c, gray(200));
    for p in &points {
        assert_eq!(zbuf[(p.y * 64 + p.x) as usize], -SCALE / 2);
    }
}

#[test]
fn triangle_beyond_far_plane_is_rejected() {
    let a = pt(10, 10, 2 * SCALE);
    let b = pt(30, 50, 3 * SCALE);
    let c = pt(50, 10, 2 * SCALE);
    let mut zbuf = fresh_zbuf(64, 64);
    let mut points: Vec<ScreenPoint> = Vec::new();
    fill_triangle(64, 64, &mut points, &mut zbuf, a, b, c, gray(200));
    assert!(points.is_empty());
    assert!(zbuf.iter().all(|&z| z == i64::MAX));
}

#[test]
fn zero_area_triangle_is_rejected() {
    let a = pt(10, 10, -SCALE / 2);
    let b = pt(20, 20, -SCALE / 2);
    let c = pt(30, 30, -SCALE / 2);
    let mut zbuf = fresh_zbuf(64, 64);
    let mut points: Vec<ScreenPoint> = Vec::new();
    fill_triangle(64, 64, &mut points, &mut zbuf, a, b, c, gray(200));
    assert!(points.is_empty());
}

#[test]
fn offscreen_pixels_are_dropped() {
    // A triangle hanging off the left and top edges fills only what lies
    // on the screen.
    let a = pt(-10, -10, -SCALE / 2);
    let b = pt(5, 20, -SCALE / 2);
    let c = pt(20, -5, -SCALE / 2);
    let mut zbuf = fresh_zbuf(32, 32);
    let mut points: Vec<ScreenPoint> = Vec::new();
    fill_triangle(32, 32, &mut points, &mut zbuf, a, b, c, gray(10));
    assert!(!points.is_empty());
    for p in &points {
        assert!(p.x >= 0 && p.x < 32 && p.y >= 0 && p.y < 32);
    }
}

/// The final image after drawing a list of points in order: later points
/// overwrite earlier ones, as the display surface does.
fn replay(w: usize, h: usize, points: &[ScreenPoint]) -> Vec<Option<Color3>> {
    let mut img: Vec<Option<Color3>> = vec![None; w * h];
    for p in points {
        img[(p.y as usize) * w + p.x as usize] = Some(p.color);
    }
    img
}

#[test]
fn depth_test_is_order_independent() {
    // Two overlapping triangles at different constant depths: whichever
    // order they are submitted in, the depth buffer and the final image
    // agree, and the nearer triangle wins where they overlap.
    let near_tri = (pt(5, 5, -SCALE / 2), pt(20, 40, -SCALE / 2), pt(40, 5, -SCALE / 2));
    let far_tri = (pt(10, 8, SCALE / 2), pt(25, 45, SCALE / 2), pt(45, 8, SCALE / 2));

    let mut zb1 = fresh_zbuf(64, 64);
    let mut pts1: Vec<ScreenPoint> = Vec::new();
    fill_triangle(64, 64, &mut pts1, &mut zb1, near_tri.0, near_tri.1, near_tri.2, gray(200));
    fill_triangle(64, 64, &mut pts1, &mut zb1, far_tri.0, far_tri.1, far_tri.2, gray(50));

    let mut zb2 = fresh_zbuf(64, 64);
    let mut pts2: Vec<ScreenPoint> = Vec::new();
    fill_triangle(64, 64, &mut pts2, &mut zb2, far_tri.0, far_tri.1, far_tri.2, gray(50));
    fill_triangle(64, 64, &mut pts2, &mut zb2, near_tri.0, near_tri.1, near_tri.2, gray(200));

    assert_eq!(zb1, zb2);
    let img1 = replay(64, 64, &pts1);
    let img2 = replay(64, 64, &pts2);
    assert_eq!(img1, img2);

    // Every pixel covered by both triangles shows the nearer one's gray
    // and carries its depth.
    let mut zb_near = fresh_zbuf(64, 64);
    let mut pts_near: Vec<ScreenPoint> = Vec::new();
    fill_triangle(64, 64, &mut pts_near, &mut zb_near, near_tri.0, near_tri.1, near_tri.2,
        gray(200));
    let mut zb_far = fresh_zbuf(64, 64);
    let mut pts_far: Vec<ScreenPoint> = Vec::new();
    fill_triangle(64, 64, &mut pts_far, &mut zb_far, far_tri.0, far_tri.1, far_tri.2, gray(50));
    let near_set = pixel_set(&pts_near);
    let far_set = pixel_set(&pts_far);
    let overlap: Vec<(i64, i64)> = near_set.iter().cloned().filter(|p| far_set.contains(p))
        .collect();
    assert!(!overlap.is_empty());
    for (px, py) in overlap {
        let off = (py * 64 + px) as usize;
        assert_eq!(zb1[off], -SCALE / 2);
        assert_eq!(img1[off], Some(gray(200)));
    }
}

#[test]
fn winding_flip_matches_reversed_order() {
    // The renderer's back-face flip (a, c, b) fills the same pixels at the
    // same depths as the fully reversed triangle (c, b, a).
    let a = pt(10, 10, -SCALE / 2);
    let b = pt(50, 10, -SCALE / 3);
    let c = pt(30, 50, -SCALE / 4);

    let mut zb1 = fresh_zbuf(64, 64);
    let mut pts1: Vec<ScreenPoint> = Vec::new();
    fill_triangle(64, 64, &mut pts1, &mut zb1, a, c, b, gray(77));

    let mut zb2 = fresh_zbuf(64, 64);
    let mut pts2: Vec<ScreenPoint> = Vec::new();
    fill_triangle(64, 64, &mut pts2, &mut zb2, c, b, a, gray(77));

    assert_eq!(zb1, zb2);
    assert_eq!(pixel_set(&pts1), pixel_set(&pts2));
    assert!(!pts1.is_empty());
}
