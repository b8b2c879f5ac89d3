use softrender::camera::Camera;
use softrender::fixed::{fx_div, fx_mul, isqrt, LIM, SCALE};
use softrender::light::Light;
use softrender::matrix::{Angle, Matrix4};
use softrender::mesh::Vertex;
use softrender::renderer::project_vertices;
use softrender::off::{parse_coord, parse_uint};
use softrender::vector::Vector3;

#[test]
fn fx_mul_halves() {
    assert_eq!(fx_mul(SCALE / 2, SCALE / 2), SCALE / 4);
    assert_eq!(fx_mul(-SCALE, 3 * SCALE), -3 * SCALE);
    assert_eq!(fx_mul(0, 12345), 0);
}

#[test]
fn fx_mul_saturates() {
    assert_eq!(fx_mul(LIM, LIM), LIM);
    assert_eq!(fx_mul(-LIM, LIM), -LIM);
}

#[test]
fn fx_div_exact() {
    assert_eq!(fx_div(SCALE, 2 * SCALE), SCALE / 2);
    assert_eq!(fx_div(-3 * SCALE, 2 * SCALE), -3 * SCALE / 2);
    assert_eq!(fx_div(7, 7), SCALE);
}

#[test]
fn isqrt_small_values() {
    assert_eq!(isqrt(0), 0);
    assert_eq!(isqrt(1), 1);
    assert_eq!(isqrt(10), 3);
    assert_eq!(isqrt(65536 * 65536), 65536);
    assert_eq!(isqrt(65536 * 65536 - 1), 65535);
}

#[test]
fn vector_componentwise_ops() {
    let a = Vector3::new(SCALE, 2 * SCALE, -3 * SCALE);
    let b = Vector3::new(-SCALE, SCALE, SCALE);
    assert_eq!(a.add(&b).tuple(), (0, 3 * SCALE, -2 * SCALE));
    assert_eq!(a.sub(&b).tuple(), (2 * SCALE, SCALE, -4 * SCALE));
    assert_eq!(a.neg().tuple(), (-SCALE, -2 * SCALE, 3 * SCALE));
    assert_eq!(a.scale(SCALE / 2).tuple(), (SCALE / 2, SCALE, -3 * SCALE / 2));
    assert_eq!(a.div_by(2 * SCALE).tuple(), (SCALE / 2, SCALE, -3 * SCALE / 2));
}

#[test]
fn vector_zero_and_from_one() {
    assert_eq!(Vector3::zero().tuple(), (0, 0, 0));
    assert_eq!(Vector3::from_one(7 * SCALE).tuple(), (7 * SCALE, 7 * SCALE, 7 * SCALE));
    assert_eq!(Vector3::from_one(i64::MAX).tuple(), (LIM, LIM, LIM));
}

#[test]
fn dot_and_cross_of_axes() {
    let x = Vector3::new(SCALE, 0, 0);
    let y = Vector3::new(0, SCALE, 0);
    let z = Vector3::new(0, 0, SCALE);
    assert_eq!(x.dot(&y), 0);
    assert_eq!(x.dot(&x), SCALE);
    assert_eq!(x.cross(&y).tuple(), z.tuple());
    assert_eq!(y.cross(&x).tuple(), (0, 0, -SCALE));
}

#[test]
fn length_of_three_four_five() {
    let v = Vector3::new(3 * SCALE, 4 * SCALE, 0);
    assert_eq!(v.length(), 5 * SCALE);
    assert_eq!(v.norm(), 25 * SCALE);
}

#[test]
fn normalize_three_four_five() {
    let v = Vector3::new(3 * SCALE, 4 * SCALE, 0);
    let n = v.normalize();
    // Each component is the exact truncated quotient.
    assert_eq!(n.tuple(), (3 * SCALE / 5, 4 * SCALE / 5, 0));
}

#[test]
fn normalize_has_unit_length() {
    // The unit-length law on a concrete input: within the proved tolerance.
    for v in [
        Vector3::new(3 * SCALE, 4 * SCALE, 0),
        Vector3::new(SCALE, SCALE, SCALE),
        Vector3::new(-7 * SCALE, 2 * SCALE, 9 * SCALE),
        Vector3::new(1000 * SCALE, -1, 17),
    ] {
        let l = v.normalize().length();
        assert!(l >= SCALE - 4 && l <= SCALE + 1, "unit length off: {}", l);
    }
}

#[test]
fn coord_system_is_orthogonal() {
    // The orthogonality law on concrete inputs: the inner products vanish
    // within the truncation tolerance.
    for v in [
        Vector3::new(3 * SCALE, 4 * SCALE, 12 * SCALE),
        Vector3::new(SCALE, 0, 0),
        Vector3::new(0, 0, -5 * SCALE),
        Vector3::new(-2 * SCALE, 6 * SCALE, 3 * SCALE),
    ] {
        let (nt, nb) = v.coord_system();
        let tol = (v.x.abs() + v.y.abs() + v.z.abs()) / SCALE + 1;
        assert!(nt.dot(&v).abs() <= tol);
        assert!(nb.dot(&v).abs() <= tol);
    }
}

#[test]
fn rotation_of_zero_angle_is_identity() {
    // Up to the rotation templates' zero bottom row.
    let r = Matrix4::rot_x(Angle::zero());
    let i = Matrix4::identity();
    assert_eq!(
        (r.c00, r.c01, r.c02, r.c03, r.c10, r.c11, r.c12, r.c13, r.c20, r.c21, r.c22, r.c23),
        (i.c00, i.c01, i.c02, i.c03, i.c10, i.c11, i.c12, i.c13, i.c20, i.c21, i.c22, i.c23),
    );
    assert_eq!((r.c30, r.c31, r.c32, r.c33), (0, 0, 0, 0));
    let r3 = Matrix4::rot(Angle::zero(), Angle::zero(), Angle::zero());
    assert_eq!(
        (r3.c00, r3.c01, r3.c02, r3.c03, r3.c10, r3.c11, r3.c12, r3.c13, r3.c20, r3.c21,
            r3.c22, r3.c23),
        (i.c00, i.c01, i.c02, i.c03, i.c10, i.c11, i.c12, i.c13, i.c20, i.c21, i.c22, i.c23),
    );
}

#[test]
fn identity_transform_round_trip() {
    let i = Matrix4::identity();
    let p = Vector3::new(123 * SCALE, -456 * SCALE, 789);
    let (q, w) = i.transform_point(&p);
    assert_eq!(q.tuple(), p.tuple());
    assert_eq!(w, SCALE);
}

#[test]
fn identity_times_identity_is_identity() {
    let i = Matrix4::identity();
    let p = i.multiply(&i);
    assert_eq!(p, i);
}

#[test]
fn rotation_quarter_turn() {
    // sin 90 deg = 1, cos 90 deg = 0: the first-axis rotation sends the
    // second axis to the third.
    let q = Angle::new(SCALE, 0);
    let m = Matrix4::rot_x(q);
    let (r, _w) = m.transform_point(&Vector3::new(0, SCALE, 0));
    assert_eq!(r.tuple(), (0, 0, SCALE));
}

#[test]
fn angle_addition_accumulates() {
    // Adding the zero angle changes nothing; two quarter turns make the
    // half turn exactly.
    let q = Angle::new(SCALE, 0);
    let z = Angle::zero();
    assert_eq!(q.add(&z), q);
    let half = q.add(&q);
    assert_eq!((half.sin, half.cos), (0, -SCALE));
}

#[test]
fn projection_center_hits_image_center() {
    // A camera-space point straight ahead at half the near-far span lands
    // exactly at the image center, in fixed-point pixels.
    let cam = Camera::new();
    let proj = Matrix4::project(&cam);
    let ident = Matrix4::identity();
    let z = -(cam.near + cam.far) / 2;
    let verts = vec![Vertex { pt: Vector3::new(0, 0, z), color: None }];
    let pv = project_vertices(&proj, &ident, 800, 600, &verts);
    assert!(pv[0].valid);
    assert_eq!(pv[0].scr.x, 400 * SCALE);
    assert_eq!(pv[0].scr.y, 300 * SCALE);
}

#[test]
fn camera_defaults_and_mutation() {
    let mut cam = Camera::new();
    assert_eq!(cam.fov_scale, SCALE);
    assert_eq!(cam.far, 20 * SCALE);
    assert_eq!(cam.near, 6554);
    cam.translate(Vector3::new(SCALE, 0, 0));
    cam.translate(Vector3::new(SCALE, 0, 0));
    assert_eq!(cam.translation.tuple(), (2 * SCALE, 0, 0));
    let q = Angle::new(SCALE, 0);
    cam.rot_x(q);
    assert_eq!((cam.rot_x.sin, cam.rot_x.cos), (SCALE, 0));
}

#[test]
fn camera_forward_direction() {
    let cam = Camera::new();
    let d = cam.get_direction();
    assert_eq!(d.tuple(), (0, 0, SCALE));
}

#[test]
fn light_direction_is_normalized() {
    let l = Light::new(2 * SCALE, 0, 0);
    assert_eq!(l.dir.tuple(), (SCALE, 0, 0));
    let l2 = Light::new(SCALE, -SCALE, -SCALE);
    let len = l2.dir.length();
    assert!(len >= SCALE - 4 && len <= SCALE + 1);
}

#[test]
fn translation_matrix_moves_points() {
    let t = Matrix4::translate(Vector3::new(SCALE, -2 * SCALE, 3 * SCALE));
    let (r, w) = t.transform_point(&Vector3::new(5 * SCALE, 5 * SCALE, 5 * SCALE));
    assert_eq!(r.tuple(), (6 * SCALE, 3 * SCALE, 8 * SCALE));
    assert_eq!(w, SCALE);
}

#[test]
fn parse_coord_tokens() {
    assert_eq!(parse_coord(&b"1.632993".to_vec()), Some(SCALE + 632993 * SCALE / 1000000));
    assert_eq!(parse_coord(&b"-1.154701".to_vec()), Some(-(SCALE + 154701 * SCALE / 1000000)));
    assert_eq!(parse_coord(&b"42".to_vec()), Some(42 * SCALE));
    assert_eq!(parse_coord(&b"".to_vec()), None);
    assert_eq!(parse_coord(&b"-".to_vec()), None);
    assert_eq!(parse_coord(&b".5".to_vec()), None);
    assert_eq!(parse_coord(&b"1.2.3".to_vec()), None);
    assert_eq!(parse_coord(&b"abc".to_vec()), None);
    assert_eq!(parse_uint(&b"123".to_vec()), Some(123));
    assert_eq!(parse_uint(&b"".to_vec()), None);
    assert_eq!(parse_uint(&b"12x".to_vec()), None);
    assert_eq!(parse_uint(&b"99999999999999999999999999".to_vec()), None);
}
