use softrender::camera::Camera;
use softrender::fixed::SCALE;
use softrender::light::Light;
use softrender::matrix::Angle;
use softrender::mesh::{Face, Mesh, Vertex};
use softrender::off::import;
use softrender::renderer::{render_normal, render_shadow, render_wireframe, ScreenPoint};
use softrender::vector::Vector3;

/// A unit cube (half-extent one unit), centered three units down the
/// optical axis.
fn cube_mesh() -> Mesh {
    let mut m = Mesh::new();
    let s = SCALE;
    let corners = [
        (-s, -s, -s), (s, -s, -s), (s, s, -s), (-s, s, -s),
        (-s, -s, s), (s, -s, s), (s, s, s), (-s, s, s),
    ];
    for (x, y, z) in corners {
        m.vertices.push(Vertex { pt: Vector3::new(x, y, z), color: None });
    }
    let tris = [
        (0, 1, 2), (0, 2, 3), (4, 6, 5), (4, 7, 6), (0, 4, 5), (0, 5, 1),
        (1, 5, 6), (1, 6, 2), (2, 6, 7), (2, 7, 3), (3, 7, 4), (3, 4, 0),
    ];
    for (a, b, c) in tris {
        m.faces.push(Face { a, b, c, color: None });
    }
    m.translate(Vector3::new(0, 0, 3 * SCALE));
    m
}

fn pixel_set(points: &[ScreenPoint]) -> Vec<(i64, i64)> {
    let mut v: Vec<(i64, i64)> = points.iter().map(|p| (p.x, p.y)).collect();
    v.sort();
    v.dedup();
    v
}

#[test]
fn cube_renders_a_symmetric_silhouette() {
    // The end-to-end scenario: the cube renders a non-empty set of
    // grayscale pixels within the image bounds, symmetric about the
    // vertical center axis within a pixel.
    let mesh = cube_mesh();
    let cam = Camera::new();
    let light = Light::new(SCALE, -SCALE, -SCALE);
    let mut zbuf = vec![i64::MAX; 64 * 64];
    let points = render_shadow(64, 64, &mut zbuf, &mesh, &cam, &light);
    assert!(!points.is_empty());
    for p in &points {
        assert!(p.x >= 0 && p.x < 64 && p.y >= 0 && p.y < 64);
        assert!(p.color.r == p.color.g && p.color.g == p.color.b);
    }
    let set = pixel_set(&points);
    for &(x, y) in &set {
        let found = set.iter().any(|&(x2, y2)| y2 == y && (x + x2 - 63).abs() <= 2);
        assert!(found, "no mirror for ({}, {})", x, y);
    }
}

#[test]
fn full_turn_reproduces_the_frame() {
    // Rotating the mesh by a whole turn about any axis reproduces the
    // frame exactly: the fixed-point angle of a full turn is the zero
    // angle, so the matrices and every pixel agree.
    let cam = Camera::new();
    let light = Light::new(SCALE, -SCALE, -SCALE);

    let mesh1 = cube_mesh();
    let mut zb1 = vec![i64::MAX; 64 * 64];
    let pts1 = render_shadow(64, 64, &mut zb1, &mesh1, &cam, &light);

    let mut mesh2 = cube_mesh();
    // A full turn: sine zero, cosine one, added to each axis in turn.
    mesh2.rot_x(Angle::new(0, SCALE));
    mesh2.rot_y(Angle::new(0, SCALE));
    mesh2.rot_z(Angle::new(0, SCALE));
    let mut zb2 = vec![i64::MAX; 64 * 64];
    let pts2 = render_shadow(64, 64, &mut zb2, &mesh2, &cam, &light);

    assert_eq!(zb1, zb2);
    assert_eq!(pts1, pts2);
}

#[test]
fn normal_mode_renders_the_cube() {
    let mesh = cube_mesh();
    let cam = Camera::new();
    let mut zbuf = vec![i64::MAX; 64 * 64];
    let points = render_normal(64, 64, &mut zbuf, &mesh, &cam);
    assert!(!points.is_empty());
    for p in &points {
        assert!(p.x >= 0 && p.x < 64 && p.y >= 0 && p.y < 64);
    }
}

#[test]
fn wireframe_draws_three_edges_per_face() {
    let mesh = cube_mesh();
    let cam = Camera::new();
    let segs = render_wireframe(64, 64, &mesh, &cam);
    assert_eq!(segs.len(), 3 * mesh.faces.len());
}

#[test]
fn depth_buffer_only_descends_across_frames() {
    // Rendering into an already-written buffer never raises an entry.
    let mesh = cube_mesh();
    let cam = Camera::new();
    let light = Light::new(SCALE, -SCALE, -SCALE);
    let mut zbuf = vec![i64::MAX; 64 * 64];
    let _ = render_shadow(64, 64, &mut zbuf, &mesh, &cam, &light);
    let first = zbuf.clone();
    let mut mesh2 = cube_mesh();
    mesh2.translate(Vector3::new(0, 0, -SCALE / 2));
    let _ = render_shadow(64, 64, &mut zbuf, &mesh2, &cam, &light);
    for i in 0..zbuf.len() {
        assert!(zbuf[i] <= first[i]);
    }
}

#[test]
fn import_accepts_a_cube_document() {
    let text = b"OFF\n\
# a cube with one quad per side, fan-triangulated\n\
8 6 12\n\
1.0 1.0 -1.0\n\
1.0 -1.0 -1.0\n\
-1.0 -1.0 -1.0\n\
-1.0 1.0 -1.0\n\
1.0 1.0 1.0\n\
1.0 -1.0 1.0\n\
-1.0 -1.0 1.0\n\
-1.0 1.0 1.0\n\
4 0 1 2 3\n\
4 4 5 6 7\n\
4 0 1 5 4\n\
4 1 2 6 5\n\
4 2 3 7 6\n\
4 3 0 4 7\n";
    let mut mesh = Mesh::new();
    let r = import(&text.to_vec(), &mut mesh);
    assert!(r.is_some());
    assert_eq!(mesh.vertices.len(), 8);
    // Six quads, two triangles each.
    assert_eq!(mesh.faces.len(), 12);
    assert_eq!(mesh.vertices[0].pt.tuple(), (SCALE, SCALE, -SCALE));
    // Fan triangulation of "4 0 1 2 3" around vertex 1 of the polygon.
    assert_eq!((mesh.faces[0].a, mesh.faces[0].b, mesh.faces[0].c), (0, 1, 2));
    assert_eq!((mesh.faces[1].a, mesh.faces[1].b, mesh.faces[1].c), (0, 2, 3));
}

#[test]
fn import_parses_fractions_and_signs() {
    let text = b"OFF\n1 0 0\n-1.5 0.25 3\n";
    let mut mesh = Mesh::new();
    let r = import(&text.to_vec(), &mut mesh);
    assert!(r.is_some());
    assert_eq!(mesh.vertices[0].pt.tuple(), (-3 * SCALE / 2, SCALE / 4, 3 * SCALE));
}

#[test]
fn import_rejects_bad_documents() {
    // Wrong header.
    let mut mesh = Mesh::new();
    assert!(import(&b"OFX\n1 0 0\n0 0 0\n".to_vec(), &mut mesh).is_none());
    // Wrong number of counts.
    let mut mesh = Mesh::new();
    assert!(import(&b"OFF\n1 0\n0 0 0\n".to_vec(), &mut mesh).is_none());
    // Too few coordinates on a vertex line.
    let mut mesh = Mesh::new();
    assert!(import(&b"OFF\n1 0 0\n0 0\n".to_vec(), &mut mesh).is_none());
    // A face index out of range.
    let mut mesh = Mesh::new();
    assert!(import(&b"OFF\n1 1 0\n0 0 0\n3 0 1 2\n".to_vec(), &mut mesh).is_none());
    // A degenerate polygon arity.
    let mut mesh = Mesh::new();
    assert!(import(&b"OFF\n1 1 0\n0 0 0\n2 0 0\n".to_vec(), &mut mesh).is_none());
    // Missing lines.
    let mut mesh = Mesh::new();
    assert!(import(&b"OFF\n2 0 0\n0 0 0\n".to_vec(), &mut mesh).is_none());
}

#[test]
fn import_ignores_trailing_lines() {
    // Lines beyond the declared counts do not affect acceptance or content.
    let text = b"OFF\n1 0 0\n1 2 3\nleftover junk\n";
    let mut mesh = Mesh::new();
    assert!(import(&text.to_vec(), &mut mesh).is_some());
    assert_eq!(mesh.vertices.len(), 1);
    assert_eq!(mesh.vertices[0].pt.tuple(), (SCALE, 2 * SCALE, 3 * SCALE));
}

#[test]
fn import_appends_to_a_loaded_mesh() {
    // A second document appends after the first; its indices name only its
    // own vertices, counted from the existing ones.
    let mut mesh = Mesh::new();
    assert!(import(&b"OFF\n3 1 0\n0 0 1\n1 0 1\n0 1 1\n3 0 1 2\n".to_vec(), &mut mesh)
        .is_some());
    assert!(import(&b"OFF\n1 0 0\n5 5 5\n".to_vec(), &mut mesh).is_some());
    assert_eq!(mesh.vertices.len(), 4);
    assert_eq!(mesh.faces.len(), 1);
    assert_eq!(mesh.vertices[3].pt.tuple(), (5 * SCALE, 5 * SCALE, 5 * SCALE));
}

#[test]
fn empty_mesh_renders_nothing() {
    let mesh = Mesh::new();
    let cam = Camera::new();
    let light = Light::new(SCALE, -SCALE, -SCALE);
    let mut zbuf = vec![i64::MAX; 16 * 16];
    let points = render_shadow(16, 16, &mut zbuf, &mesh, &cam, &light);
    assert!(points.is_empty());
    assert!(zbuf.iter().all(|&z| z == i64::MAX));
}

#[test]
fn degenerate_face_is_skipped() {
    // A face whose vertices are collinear has no shading normal and is
    // dropped without aborting the frame.
    let mut mesh = Mesh::new();
    for k in 0..3i64 {
        mesh.vertices.push(Vertex {
            pt: Vector3::new(k * SCALE, k * SCALE, 3 * SCALE),
            color: None,
        });
    }
    mesh.faces.push(Face { a: 0, b: 1, c: 2, color: None });
    let cam = Camera::new();
    let light = Light::new(SCALE, -SCALE, -SCALE);
    let mut zbuf = vec![i64::MAX; 32 * 32];
    let points = render_shadow(32, 32, &mut zbuf, &mesh, &cam, &light);
    assert!(points.is_empty());
}

#[test]
fn mesh_pose_mutators() {
    let mut mesh = Mesh::new();
    mesh.set_rot_origin(Vector3::new(SCALE, 0, 0));
    assert_eq!(mesh.rot_o.tuple(), (SCALE, 0, 0));
    mesh.set_translation(Vector3::new(0, SCALE, 0));
    assert_eq!(mesh.translation.tuple(), (0, SCALE, 0));
    mesh.translate(Vector3::new(0, SCALE, 0));
    assert_eq!(mesh.translation.tuple(), (0, 2 * SCALE, 0));
    let r = mesh.get_rotation_mat();
    assert_eq!((r.c00, r.c11, r.c22), (SCALE, SCALE, SCALE));
}
