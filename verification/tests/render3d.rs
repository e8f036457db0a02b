use render3d::color::Color;
use render3d::fixed::{fx_div, fx_mul, fx_round, FX_ONE};
use render3d::fps::FpsCounter;
use render3d::matrix::Matrix;
use render3d::mesh::Mesh;
use render3d::raster::{apply_color_luminance, fill_triangle_segments};
use render3d::screen::Screen;
use render3d::transform::{generate_projection_matrix, Transform};
use render3d::triangle::Triangle;
use render3d::vector::Vector;

const S: i64 = 65536;

fn vecf(coords: Vec<i64>) -> Vector {
    Vector::new(coords)
}

fn tri(a: Vec<i64>, b: Vec<i64>, c: Vec<i64>) -> Triangle {
    Triangle::new(vec![vecf(a), vecf(b), vecf(c)], S)
}

fn cube() -> Mesh {
    let f = |x: i64, y: i64, z: i64| vec![x * S, y * S, z * S];
    let t = |a: Vec<i64>, b: Vec<i64>, c: Vec<i64>| tri(a, b, c);
    Mesh::new(vec![
        // south face
        t(f(0, 0, 0), f(0, 1, 0), f(1, 1, 0)),
        t(f(0, 0, 0), f(1, 1, 0), f(1, 0, 0)),
        // east face
        t(f(1, 0, 0), f(1, 1, 0), f(1, 1, 1)),
        t(f(1, 0, 0), f(1, 1, 1), f(1, 0, 1)),
        // north face
        t(f(1, 0, 1), f(1, 1, 1), f(0, 1, 1)),
        t(f(1, 0, 1), f(0, 1, 1), f(0, 0, 1)),
        // west face
        t(f(0, 0, 1), f(0, 1, 1), f(0, 1, 0)),
        t(f(0, 0, 1), f(0, 1, 0), f(0, 0, 0)),
        // top face
        t(f(0, 1, 0), f(0, 1, 1), f(1, 1, 1)),
        t(f(0, 1, 0), f(1, 1, 1), f(1, 1, 0)),
        // bottom face
        t(f(1, 0, 1), f(0, 0, 1), f(0, 0, 0)),
        t(f(1, 0, 1), f(0, 0, 0), f(1, 0, 0)),
    ])
}

#[test]
fn vector_basics() {
    let a = vecf(vec![S, 2 * S, 3 * S]);
    assert_eq!(a.len(), 3);
    assert_eq!(a.get(0), Some(S));
    assert_eq!(a.get(2), Some(3 * S));
    assert_eq!(a.get(3), None);
    let mut b = a.clone();
    assert!(b.set(1, 7 * S));
    assert!(!b.set(9, 0));
    assert_eq!(b.get(1), Some(7 * S));
    assert_eq!(a.get(1), Some(2 * S));
}

#[test]
fn vector_add_sub_scale() {
    let a = vecf(vec![S, 2 * S]);
    let b = vecf(vec![3 * S, -S]);
    let s = a.add(&b);
    assert_eq!(s.coords(), &vec![4 * S, S]);
    let d = a.sub(&b);
    assert_eq!(d.coords(), &vec![-2 * S, 3 * S]);
    let m = a.scale(&b);
    assert_eq!(m.coords(), &vec![3 * S, -2 * S]);
}

#[test]
fn vector_dot_cross() {
    let a = vecf(vec![S, 0, 0]);
    let b = vecf(vec![0, S, 0]);
    assert_eq!(a.dot(&b), 0);
    assert_eq!(a.dot(&a), S);
    let c = a.cross(&b);
    assert_eq!(c.coords(), &vec![0, 0, S]);
    let c2 = b.cross(&a);
    assert_eq!(c2.coords(), &vec![0, 0, -S]);
}

#[test]
fn normalize_magnitude_near_one() {
    // a 3-4-5 triangle: magnitude 5, normalized coordinates 3/5 and 4/5
    let v = vecf(vec![3 * S, 4 * S, 0]);
    let n = v.normalize();
    assert_eq!(n.coords(), &vec![39321, 52428, 0]);
    let m2: i64 = 39321 * 39321 + 52428 * 52428;
    // squared magnitude within the stated tolerance of one unit squared
    assert!(m2 > S * S - 6 * S - 3);
    assert!(m2 < (S + 1) * (S + 1));
}

#[test]
fn rotation_preserves_length_quarter_turn() {
    // cos 90 = 0, sin 90 = 1: an exact quarter turn about the z-axis
    let mesh = Mesh::new(vec![tri(vec![S, 0, 0], vec![0, S, 0], vec![0, 0, S])]);
    let proj = Matrix::identity(4);
    let t = Transform::new(&mesh, &proj).rotate_z(0, S);
    let out = t.mesh();
    let tris = out.triangles();
    assert_eq!(tris[0].vectors()[0].coords(), &vec![0, S, 0]);
    assert_eq!(tris[0].vectors()[1].coords(), &vec![-S, 0, 0]);
    assert_eq!(tris[0].vectors()[2].coords(), &vec![0, 0, S]);
}

#[test]
fn rotation_x_and_y() {
    let mesh = Mesh::new(vec![tri(vec![S, 2 * S, 3 * S], vec![0, 0, 0], vec![0, 0, 0])]);
    let proj = Matrix::identity(4);
    // cos 0 = 1, sin 0 = 0: rotating by nothing changes nothing
    let t = Transform::new(&mesh, &proj).rotate_x(S, 0);
    let out = t.mesh();
    assert_eq!(out.triangles()[0].vectors()[0].coords(), &vec![S, 2 * S, 3 * S]);
    let t2 = Transform::new(&mesh, &proj).rotate_y(S, 0);
    let out2 = t2.mesh();
    assert_eq!(out2.triangles()[0].vectors()[0].coords(), &vec![S, 2 * S, 3 * S]);
}

#[test]
fn identity_matrix_leaves_vectors_unchanged() {
    let m = Matrix::identity(4);
    let v = vecf(vec![123456, -654321, 42]);
    let r = m.mul_vec3(&v);
    assert_eq!(r.coords(), &vec![123456, -654321, 42]);
}

#[test]
fn matrix_get_set_fill() {
    let mut m = Matrix::fill(2, 3, 7);
    assert_eq!(m.get(1, 2), Some(7));
    assert_eq!(m.get(2, 0), None);
    assert!(m.set(0, 1, 9));
    assert!(!m.set(5, 5, 9));
    assert_eq!(m.get(0, 1), Some(9));
    assert_eq!(m.get(0, 0), Some(7));
    let z = Matrix::new(4, 4);
    assert_eq!(z.get(3, 3), Some(0));
    let i = Matrix::identity(3);
    assert_eq!(i.get(2, 2), Some(S));
    assert_eq!(i.get(2, 1), Some(0));
}

#[test]
fn backface_cull_keeps_facing_triangle() {
    // triangle (0,0,0), (0,1,0), (1,1,0): its winding normal is (0,0,-1)
    let mesh = Mesh::new(vec![tri(
        vec![0, 0, 0],
        vec![0, S, 0],
        vec![S, S, 0],
    )]);
    let proj = Matrix::identity(4);
    // camera in front of the face: dot is -1, strictly negative: kept
    let camera = vecf(vec![0, 0, -S]);
    let kept = Transform::new(&mesh, &proj).normalize_filter(&camera).mesh();
    assert_eq!(kept.triangles().len(), 1);
    // camera behind the face: dot is +1: filtered out
    let behind = vecf(vec![0, 0, S]);
    let culled = Transform::new(&mesh, &proj).normalize_filter(&behind).mesh();
    assert_eq!(culled.triangles().len(), 0);
}

#[test]
fn luminance_comes_from_normal_and_light() {
    let mesh = Mesh::new(vec![tri(
        vec![0, 0, 0],
        vec![0, S, 0],
        vec![S, S, 0],
    )]);
    let proj = Matrix::identity(4);
    // the triangle's unit normal is (0,0,-1); light along (0,0,-1) gives
    // luminance 1
    let light = vecf(vec![0, 0, -S]);
    let lit = Transform::new(&mesh, &proj).apply_luminance(&light).mesh();
    assert_eq!(lit.triangles()[0].get_luminance(), S);
    // light along (0,0,1) gives luminance -1
    let away = vecf(vec![0, 0, S]);
    let dark = Transform::new(&mesh, &proj).apply_luminance(&away).mesh();
    assert_eq!(dark.triangles()[0].get_luminance(), -S);
}

#[test]
fn projection_matrix_entries() {
    // near 0.1, far 1000, square aspect, 90 degree field of view
    let near: i64 = 6554;
    let far: i64 = 1000 * S;
    let aspect: i64 = S;
    let fov_rad: i64 = S;
    let m = generate_projection_matrix(aspect, fov_rad, near, far);
    assert_eq!(m.get(0, 0), Some(fx_mul(aspect, fov_rad)));
    assert_eq!(m.get(0, 0), Some(S));
    assert_eq!(m.get(1, 1), Some(S));
    assert_eq!(m.get(2, 2), Some(fx_div(far, far - near)));
    assert_eq!(m.get(2, 2), Some(65542));
    assert_eq!(m.get(3, 2), Some(fx_div(fx_mul(-far, near), far - near)));
    assert_eq!(m.get(3, 2), Some(-6554));
    assert_eq!(m.get(2, 3), Some(S));
    assert_eq!(m.get(3, 3), Some(S));
    assert_eq!(m.get(0, 1), Some(0));
    assert_eq!(m.get(1, 0), Some(0));
}

#[test]
fn projection_of_center_vertex() {
    let near: i64 = 6554;
    let far: i64 = 1000 * S;
    let m = generate_projection_matrix(S, S, near, far);
    // a vertex on the camera's forward axis stays at the screen center
    let mesh = Mesh::new(vec![tri(
        vec![0, 0, 2 * S],
        vec![0, 0, 3 * S],
        vec![0, 0, 4 * S],
    )]);
    let projected = Transform::new(&mesh, &m).project().mesh();
    let t = &projected.triangles()[0];
    assert_eq!(t.vectors()[0].len(), 2);
    assert_eq!(t.vectors()[0].coords(), &vec![0, 0]);
    assert_eq!(t.vectors()[1].coords(), &vec![0, 0]);
}

#[test]
fn translate_and_scale_are_per_dimension() {
    let mesh = Mesh::new(vec![tri(vec![S, 2 * S, 3 * S], vec![0, 0, 0], vec![S, S, S])]);
    let proj = Matrix::identity(4);
    let moved = Transform::new(&mesh, &proj).translate(&vecf(vec![S, -S, 0])).mesh();
    assert_eq!(moved.triangles()[0].vectors()[0].coords(), &vec![2 * S, S, 3 * S]);
    let scaled = Transform::new(&mesh, &proj).scale(&vecf(vec![2 * S, S / 2, S])).mesh();
    assert_eq!(scaled.triangles()[0].vectors()[0].coords(), &vec![2 * S, S, 3 * S]);
}

#[test]
fn transforms_preserve_triangle_count() {
    let mesh = cube();
    let proj = Matrix::identity(4);
    let n = mesh.triangles().len();
    assert_eq!(n, 12);
    let t = Transform::new(&mesh, &proj)
        .rotate_z(0, S)
        .rotate_x(S, 0)
        .translate(&vecf(vec![0, 0, 2 * S]))
        .scale(&vecf(vec![S, S, S]));
    assert_eq!(t.mesh().triangles().len(), n);
    let projected = t.project().mesh();
    assert_eq!(projected.triangles().len(), n);
}

#[test]
fn cull_never_grows_the_mesh() {
    let mesh = cube();
    let proj = Matrix::identity(4);
    let camera = vecf(vec![0, 0, -S]);
    let t = Transform::new(&mesh, &proj)
        .translate(&vecf(vec![0, 0, 2 * S]))
        .normalize_filter(&camera);
    let len = t.mesh().triangles().len();
    assert!(len <= 12);
    // a convex cube seen from one side shows at most half its faces
    assert!(len >= 1);
}

#[test]
fn mesh_transform_keeps_count_and_maps() {
    let mesh = cube();
    let out = mesh.transform(|t: &Triangle| t.clone());
    assert_eq!(out.triangles().len(), 12);
    let tri0 = &mesh.triangles()[0];
    let moved = tri0.transform(|v: &Vector| v.clone());
    assert_eq!(moved.get_luminance(), tri0.get_luminance());
    let vec0 = &tri0.vectors()[0];
    let doubled = vec0.transform(|c: &i64| c.saturating_mul(2));
    assert_eq!(doubled.len(), vec0.len());
}

#[test]
fn color_packing_round_trip() {
    let c = Color::new(12, 200, 255);
    let packed = c.to_u8_rgb();
    assert_eq!(packed, (12 << 16) | (200 << 8) | 255);
    let back = Color::from_u8_rgb(packed);
    assert_eq!(back, c);
    assert_eq!(Color::from_u8_rgb(0xff0000), Color::new(255, 0, 0));
    assert_eq!(Color::new(1, 2, 3).get(0), Some(1));
    assert_eq!(Color::new(1, 2, 3).get(3), None);
    let mut m = Color::new(0, 0, 0);
    assert!(m.set(2, 9));
    assert_eq!(m, Color::new(0, 0, 9));
    assert!(!m.set(3, 9));
}

#[test]
fn luminance_darkens_colors() {
    // full shadow intensity and luminance -1: everything goes black
    let black = apply_color_luminance(Color::new(255, 128, 1), -S, S / 2);
    assert_eq!(black, Color::new(0, 0, 0));
    // half luminance at half intensity leaves three quarters
    let dimmed = apply_color_luminance(Color::new(200, 200, 200), S / 2, S / 2);
    assert_eq!(dimmed, Color::new(150, 150, 150));
    // full luminance leaves the color untouched
    let lit = apply_color_luminance(Color::new(10, 20, 30), S, S);
    assert_eq!(lit, Color::new(10, 20, 30));
    // zero shadow intensity ignores the luminance entirely
    let flat = apply_color_luminance(Color::new(10, 20, 30), -S, 0);
    assert_eq!(flat, Color::new(10, 20, 30));
}

#[test]
fn screen_basics() {
    let mut s = Screen::new(4, 3);
    assert_eq!(s.get(0, 0), Some(0));
    assert_eq!(s.get(3, 2), Some(0));
    assert_eq!(s.get(4, 0), None);
    assert_eq!(s.get(0, 3), None);
    assert!(s.set(1, 2, 77));
    assert_eq!(s.get(1, 2), Some(77));
    // out-of-bounds writes are silent no-ops
    assert!(!s.set(9, 9, 1));
    s.fill(5);
    assert_eq!(s.get(1, 2), Some(5));
    assert_eq!(s.data().len(), 12);
    assert!(s.data().iter().all(|p| *p == 5));
}

#[test]
fn draw_plots_rounded_pixel() {
    let mut s = Screen::new(10, 10);
    let c = Color::new(1, 2, 3);
    // 2.5 rounds half away from zero to 3
    assert!(s.draw(&vecf(vec![S + S / 4, 2 * S + S / 2]), c));
    assert_eq!(s.get(1, 3), Some(c.to_u8_rgb()));
    // off-screen plots are silently dropped
    assert!(!s.draw(&vecf(vec![-S, 0]), c));
    assert!(!s.draw(&vecf(vec![20 * S, 0]), c));
}

#[test]
fn line_draw_plots_both_endpoints() {
    let mut s = Screen::new(20, 20);
    let c = Color::new(9, 9, 9);
    let p1 = vecf(vec![S + S / 4, 2 * S + S / 2]);
    let p2 = vecf(vec![7 * S + 3 * S / 4, 9 * S]);
    s.draw_line(&p1, &p2, c);
    assert_eq!(s.get(1, 3), Some(c.to_u8_rgb()));
    assert_eq!(s.get(8, 9), Some(c.to_u8_rgb()));
}

#[test]
fn line_draw_single_point() {
    let mut s = Screen::new(8, 8);
    let c = Color::new(1, 1, 1);
    let p = vecf(vec![2 * S, 2 * S]);
    s.draw_line(&p, &p, c);
    assert_eq!(s.get(2, 2), Some(c.to_u8_rgb()));
}

#[test]
fn shape_draw_plots_every_point() {
    let mut s = Screen::new(20, 20);
    let c = Color::new(4, 5, 6);
    let points = vec![
        vecf(vec![2 * S, 2 * S]),
        vecf(vec![10 * S, 2 * S]),
        vecf(vec![6 * S, 8 * S]),
    ];
    s.draw_shape(&points, c);
    assert_eq!(s.get(2, 2), Some(c.to_u8_rgb()));
    assert_eq!(s.get(10, 2), Some(c.to_u8_rgb()));
    assert_eq!(s.get(6, 8), Some(c.to_u8_rgb()));
}

#[test]
fn fill_segments_cover_every_column() {
    // vertices at x-coordinates 0, 5 and 10: columns 0 through 10, no gaps
    let t = tri(vec![0, 0], vec![5 * S, 4 * S], vec![10 * S, 0]);
    let segs = fill_triangle_segments(&t);
    assert_eq!(segs.len(), 12);
    for (k, sg) in segs.iter().enumerate() {
        let col = if k <= 5 { k as i64 } else { (k - 6) as i64 + 5 };
        assert_eq!(fx_round(sg.x), col);
    }
}

#[test]
fn fill_segments_degenerate_zero_extent() {
    // all three vertices on one column: a single strip, fraction zero
    let t = tri(vec![3 * S, 0], vec![3 * S, 2 * S], vec![3 * S, 4 * S]);
    let segs = fill_triangle_segments(&t);
    assert_eq!(segs.len(), 2);
    assert_eq!(fx_round(segs[0].x), 3);
    assert_eq!(fx_round(segs[1].x), 3);
}

#[test]
fn fill_triangle_paints_inside_columns() {
    let mut s = Screen::new(16, 16);
    let base = Color::new(255, 255, 255);
    let t = tri(vec![2 * S, 2 * S], vec![6 * S, 10 * S], vec![10 * S, 2 * S]);
    s.fill_triangle(&t, base, 0);
    // with zero shadow intensity the fill color is the base color
    let pc = base.to_u8_rgb();
    // the three corners are painted
    assert_eq!(s.get(2, 2), Some(pc));
    assert_eq!(s.get(6, 10), Some(pc));
    assert_eq!(s.get(10, 2), Some(pc));
    // a pixel far outside the triangle is untouched
    assert_eq!(s.get(14, 14), Some(0));
}

#[test]
fn fill_mesh_paints_in_order() {
    let mut s = Screen::new(16, 16);
    let base = Color::new(200, 200, 200);
    let mesh = Mesh::new(vec![
        tri(vec![2 * S, 2 * S], vec![6 * S, 10 * S], vec![10 * S, 2 * S]),
    ]);
    s.fill_mesh(&mesh, base, 0);
    assert_eq!(s.get(2, 2), Some(base.to_u8_rgb()));
}

#[test]
fn draw_mesh_outlines_triangles() {
    let mut s = Screen::new(16, 16);
    let c = Color::new(7, 7, 7);
    let mesh = Mesh::new(vec![
        tri(vec![2 * S, 2 * S], vec![6 * S, 10 * S], vec![10 * S, 2 * S]),
    ]);
    s.draw_mesh(&mesh, c);
    assert_eq!(s.get(2, 2), Some(c.to_u8_rgb()));
    assert_eq!(s.get(6, 10), Some(c.to_u8_rgb()));
    assert_eq!(s.get(10, 2), Some(c.to_u8_rgb()));
}

#[test]
fn fps_counter_publishes_each_second() {
    let mut fps = FpsCounter::new(0);
    assert_eq!(fps.count(), 0);
    assert!(!fps.update(500000));
    assert!(!fps.update(999999));
    assert_eq!(fps.count(), 0);
    // a full second has passed: the three updates seen are published
    assert!(fps.update(1000000));
    assert_eq!(fps.count(), 3);
    assert!(!fps.update(1500000));
    assert!(fps.update(2000001));
    assert_eq!(fps.count(), 2);
}

#[test]
fn full_pipeline_renders_a_cube() {
    let width: usize = 64;
    let height: usize = 48;
    let mut screen = Screen::new(width, height);
    screen.fill(Color::new(0, 0, 127).to_u8_rgb());
    let aspect = fx_div(height as i64 * S, width as i64 * S);
    let proj = generate_projection_matrix(aspect, S, 6554, 1000 * S);
    let camera = vecf(vec![0, 0, -S]);
    let light = vecf(vec![0, 0, -S]).normalize();
    let projected = Transform::new(&cube(), &proj)
        .rotate_z(S, 0)
        .rotate_x(S, 0)
        .translate(&vecf(vec![0, 0, 2 * S]))
        .normalize_filter(&camera)
        .apply_luminance(&light)
        .project()
        .translate(&vecf(vec![S, S]))
        .scale(&vecf(vec![S / 2, S / 2]))
        .scale(&vecf(vec![width as i64 * S, height as i64 * S]))
        .mesh();
    assert!(projected.triangles().len() <= 12);
    assert!(projected.triangles().len() >= 1);
    screen.fill_mesh(&projected, Color::new(255, 255, 255), S / 2);
    // something was painted over the background
    let bg = Color::new(0, 0, 127).to_u8_rgb();
    assert!(screen.data().iter().any(|p| *p != bg));
}
