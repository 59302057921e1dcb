use rasterizer::geom::P;
use rasterizer::light::{shade, Color};
use rasterizer::raster::{fill_triangle, render_frame, FrameBuffer};
use rasterizer::mesh::Mesh;
use rasterizer::transform::{
    apply_input, build_model_matrix, project, rotate_x, screen, translate, translate_model,
    EulerSinCos, InputAction, TranslationParams,
};
use rasterizer::{DEPTH_INF, ROT_STEP, SCALE, TRANS_STEP};

fn pt(x: i64, y: i64, z: i64) -> P {
    P { x, y, z }
}

fn identity_sincos() -> EulerSinCos {
    EulerSinCos { sin_x: 0, cos_x: SCALE, sin_y: 0, cos_y: SCALE, sin_z: 0, cos_z: SCALE }
}

fn black() -> Color {
    Color { r: 0, g: 0, b: 0 }
}

#[test]
fn barycentric_weights_inside_sum_to_area() {
    let s0 = pt(0, 0, 0);
    let s1 = pt(10 * SCALE, 0, 0);
    let s2 = pt(0, 10 * SCALE, 0);
    let q = pt(2 * SCALE, 2 * SCALE, 0);
    let area = rasterizer::geom::edge_function(s0, s1, s2);
    let e0 = rasterizer::geom::edge_function(s1, s2, q);
    let e1 = rasterizer::geom::edge_function(s2, s0, q);
    let e2 = rasterizer::geom::edge_function(s0, s1, q);
    assert_ne!(area, 0);
    // All three weights carry the sign of the area: normalized they are >= 0.
    if area > 0 {
        assert!(e0 >= 0 && e1 >= 0 && e2 >= 0);
    } else {
        assert!(e0 <= 0 && e1 <= 0 && e2 <= 0);
    }
    // And they sum to exactly the area: normalized they sum to exactly 1.
    assert_eq!(e0 + e1 + e2, area);
}

#[test]
fn degenerate_triangle_writes_nothing() {
    let mut fb = FrameBuffer::new(64, 64, black());
    let before_color = fb.color.clone();
    let before_depth = fb.depth.clone();
    // Three colinear screen points: area is exactly zero.
    let s0 = pt(3 * SCALE, 5 * SCALE, SCALE);
    let s1 = pt(6 * SCALE, 5 * SCALE, SCALE);
    let s2 = pt(9 * SCALE, 5 * SCALE, SCALE);
    let w = pt(0, 0, 5 * SCALE);
    fill_triangle(&mut fb, w, w, w, s0, s1, s2, pt(0, 0, -SCALE));
    assert_eq!(fb.color, before_color);
    assert_eq!(fb.depth, before_depth);
}

#[test]
fn colinear_screen_points_have_zero_area_and_paint_nothing() {
    let s0 = pt(100 * SCALE, 100 * SCALE, SCALE);
    let s1 = pt(200 * SCALE, 100 * SCALE, SCALE);
    let s2 = pt(300 * SCALE, 100 * SCALE, SCALE);
    assert_eq!(rasterizer::geom::edge_function(s0, s1, s2), 0);
    let mut fb = FrameBuffer::new(400, 200, black());
    let w = pt(0, 0, 5 * SCALE);
    fill_triangle(&mut fb, w, w, w, s0, s1, s2, pt(0, 0, -SCALE));
    assert!(fb.depth.iter().all(|&d| d == DEPTH_INF));
}

#[test]
fn draw_order_of_two_triangles_does_not_matter() {
    let w0 = pt(0, 0, 2 * SCALE);
    let w1 = pt(SCALE, 0, 2 * SCALE);
    let w2 = pt(0, SCALE, 2 * SCALE);
    let near = [pt(2 * SCALE, 2 * SCALE, 2 * SCALE), pt(30 * SCALE, 4 * SCALE, 2 * SCALE), pt(
        4 * SCALE,
        30 * SCALE,
        2 * SCALE,
    )];
    let far = [pt(0, 0, 7 * SCALE), pt(32 * SCALE, 2 * SCALE, 7 * SCALE), pt(
        2 * SCALE,
        32 * SCALE,
        7 * SCALE,
    )];
    let light = pt(10 * SCALE, 20 * SCALE, -10 * SCALE);
    let other = pt(-3 * SCALE, -5 * SCALE, -SCALE);

    let mut ab = FrameBuffer::new(40, 40, black());
    fill_triangle(&mut ab, w0, w1, w2, near[0], near[1], near[2], light);
    fill_triangle(&mut ab, w0, w1, w2, far[0], far[1], far[2], other);

    let mut ba = FrameBuffer::new(40, 40, black());
    fill_triangle(&mut ba, w0, w1, w2, far[0], far[1], far[2], other);
    fill_triangle(&mut ba, w0, w1, w2, near[0], near[1], near[2], light);

    assert_eq!(ab.color, ba.color);
    assert_eq!(ab.depth, ba.depth);
    // The nearer triangle's depth stands wherever both were drawn.
    assert!(ab.depth.iter().all(|&d| d == DEPTH_INF || d == 2 * SCALE || d == 7 * SCALE));
}

#[test]
fn viewport_corners_map_exactly() {
    // The four corners of the normalized square land exactly on the
    // corners of the 800 x 600 pixel rectangle, with y flipped.
    let tr = screen(pt(SCALE, SCALE, 5 * SCALE));
    assert_eq!((tr.x, tr.y), (800 * SCALE, 0));
    let tl = screen(pt(-SCALE, SCALE, 5 * SCALE));
    assert_eq!((tl.x, tl.y), (0, 0));
    let br = screen(pt(SCALE, -SCALE, 5 * SCALE));
    assert_eq!((br.x, br.y), (800 * SCALE, 600 * SCALE));
    let bl = screen(pt(-SCALE, -SCALE, 5 * SCALE));
    assert_eq!((bl.x, bl.y), (0, 600 * SCALE));
    assert_eq!(tr.z, 5 * SCALE);
}

#[test]
fn projection_divides_by_depth_and_keeps_it() {
    let p = project(pt(2 * SCALE, -4 * SCALE, 4 * SCALE));
    assert_eq!(p.x, SCALE / 2);
    assert_eq!(p.y, -SCALE);
    assert_eq!(p.z, 4 * SCALE);
}

#[test]
fn projection_of_camera_plane_point_is_pinned_to_the_edge() {
    let p = project(pt(3 * SCALE, -2 * SCALE, 0));
    assert_eq!(p.x, rasterizer::NDC_BOUND);
    assert_eq!(p.y, rasterizer::NDC_BOUND);
    assert_eq!(p.z, 0);
}

#[test]
fn translate_moves_only_z() {
    let p = translate(pt(SCALE, 2 * SCALE, 3 * SCALE), 5 * SCALE);
    assert_eq!((p.x, p.y, p.z), (SCALE, 2 * SCALE, 8 * SCALE));
}

#[test]
fn rotate_x_quarter_turn_swaps_x_and_z() {
    // sin = 1, cos = 0.
    let p = rotate_x(pt(4 * SCALE, 7 * SCALE, 0), SCALE, 0);
    assert_eq!((p.x, p.y, p.z), (0, 7 * SCALE, 4 * SCALE));
}

#[test]
fn identity_transform_keeps_vertices() {
    let tp = TranslationParams { dx: 0, dy: 0, dz: 0, angle_x: 0, angle_y: 0, angle_z: 0 };
    let m = build_model_matrix(&tp, &identity_sincos());
    let p = translate_model(&m, pt(3 * SCALE, -2 * SCALE, 5 * SCALE));
    assert_eq!((p.x, p.y, p.z), (3 * SCALE, -2 * SCALE, 5 * SCALE));
}

#[test]
fn translation_matrix_moves_vertices() {
    let tp = TranslationParams {
        dx: SCALE,
        dy: -2 * SCALE,
        dz: 10 * SCALE,
        angle_x: 0,
        angle_y: 0,
        angle_z: 0,
    };
    let m = build_model_matrix(&tp, &identity_sincos());
    let p = translate_model(&m, pt(0, 0, 0));
    assert_eq!((p.x, p.y, p.z), (SCALE, -2 * SCALE, 10 * SCALE));
}

#[test]
fn input_events_step_one_field_each() {
    let mut tp = TranslationParams { dx: 0, dy: 0, dz: 0, angle_x: 0, angle_y: 0, angle_z: 0 };
    apply_input(&mut tp, InputAction::RotateXPlus);
    assert_eq!(tp.angle_x, ROT_STEP);
    apply_input(&mut tp, InputAction::RotateXMinus);
    apply_input(&mut tp, InputAction::RotateXMinus);
    assert_eq!(tp.angle_x, -ROT_STEP);
    apply_input(&mut tp, InputAction::MoveFarther);
    assert_eq!(tp.dz, TRANS_STEP);
    apply_input(&mut tp, InputAction::MoveCloser);
    apply_input(&mut tp, InputAction::MoveCloser);
    assert_eq!(tp.dz, -TRANS_STEP);
    assert_eq!((tp.dx, tp.dy, tp.angle_y, tp.angle_z), (0, 0, 0, 0));
}

#[test]
fn shade_gives_full_tint_facing_the_light() {
    let c = shade(pt(0, 0, 0), pt(SCALE, 0, 0), pt(0, SCALE, 0), pt(0, 0, 10 * SCALE));
    assert_eq!(c, Color { r: 255, g: 210, b: 0 });
}

#[test]
fn shade_is_black_away_from_the_light() {
    let c = shade(pt(0, 0, 0), pt(SCALE, 0, 0), pt(0, SCALE, 0), pt(0, 0, -10 * SCALE));
    assert_eq!(c, Color { r: 0, g: 0, b: 0 });
}

#[test]
fn unit_triangle_end_to_end_fills_one_quadrant() {
    // World vertices (0,0,5), (1,0,5), (0,1,5); identity transform; light
    // at (10,20,-10). The triangle projects between pixel columns 400..480
    // and rows 240..300 of the 800 x 600 target: after the y flip it fills
    // part of the upper half, right of the center column, and nothing
    // anywhere else. Every vertex shares z = 5, so every painted depth is
    // exactly 5.
    let mesh = Mesh {
        vertices: vec![pt(0, 0, 5 * SCALE), pt(SCALE, 0, 5 * SCALE), pt(0, SCALE, 5 * SCALE)],
        faces: vec![vec![0, 1, 2]],
    };
    let tp = TranslationParams { dx: 0, dy: 0, dz: 0, angle_x: 0, angle_y: 0, angle_z: 0 };
    let m = build_model_matrix(&tp, &identity_sincos());
    let light = pt(10 * SCALE, 20 * SCALE, -10 * SCALE);
    let mut fb = FrameBuffer::new(800, 600, black());
    render_frame(&mut fb, &mesh, &m, light);

    let mut painted = 0usize;
    for y in 0..600usize {
        for x in 0..800usize {
            let d = fb.depth[y * 800 + x];
            if d != DEPTH_INF {
                painted += 1;
                assert_eq!(d, 5 * SCALE);
                assert!((400..480).contains(&x), "painted at column {x}");
                assert!((240..301).contains(&y), "painted at row {y}");
            }
        }
    }
    assert!(painted > 0);
    // Flat shading: one color over the whole region.
    let mut region_colors: Vec<Color> = Vec::new();
    for (i, &d) in fb.depth.iter().enumerate() {
        if d != DEPTH_INF {
            region_colors.push(fb.color[i]);
        }
    }
    assert!(region_colors.iter().all(|&c| c == region_colors[0]));
}

#[test]
fn faces_longer_than_three_draw_only_the_leading_fan() {
    let verts = vec![
        pt(0, 0, 5 * SCALE),
        pt(SCALE, 0, 5 * SCALE),
        pt(0, SCALE, 5 * SCALE),
        pt(-SCALE, -SCALE, 5 * SCALE),
    ];
    let quad = Mesh { vertices: verts.clone(), faces: vec![vec![0, 1, 2, 3]] };
    let tri = Mesh { vertices: verts, faces: vec![vec![0, 1, 2]] };
    let tp = TranslationParams { dx: 0, dy: 0, dz: 0, angle_x: 0, angle_y: 0, angle_z: 0 };
    let m = build_model_matrix(&tp, &identity_sincos());
    let m2 = build_model_matrix(&tp, &identity_sincos());
    let light = pt(10 * SCALE, 20 * SCALE, -10 * SCALE);
    let mut a = FrameBuffer::new(200, 150, black());
    let mut b = FrameBuffer::new(200, 150, black());
    render_frame(&mut a, &quad, &m, light);
    render_frame(&mut b, &tri, &m2, light);
    assert_eq!(a.color, b.color);
    assert_eq!(a.depth, b.depth);
}

#[test]
fn short_faces_are_skipped() {
    let mesh = Mesh {
        vertices: vec![pt(0, 0, 5 * SCALE), pt(SCALE, 0, 5 * SCALE)],
        faces: vec![vec![0, 1]],
    };
    let tp = TranslationParams { dx: 0, dy: 0, dz: 0, angle_x: 0, angle_y: 0, angle_z: 0 };
    let m = build_model_matrix(&tp, &identity_sincos());
    let mut fb = FrameBuffer::new(100, 100, black());
    render_frame(&mut fb, &mesh, &m, pt(0, 0, -SCALE));
    assert!(fb.depth.iter().all(|&d| d == DEPTH_INF));
}

#[test]
fn clear_resets_both_planes() {
    let mut fb = FrameBuffer::new(16, 16, black());
    let s = [pt(SCALE, SCALE, SCALE), pt(12 * SCALE, 2 * SCALE, SCALE), pt(
        2 * SCALE,
        12 * SCALE,
        SCALE,
    )];
    fill_triangle(&mut fb, s[0], s[1], s[2], s[0], s[1], s[2], pt(0, 0, -9 * SCALE));
    assert!(fb.depth.iter().any(|&d| d != DEPTH_INF));
    let bg = Color { r: 9, g: 8, b: 7 };
    fb.clear(bg);
    assert!(fb.depth.iter().all(|&d| d == DEPTH_INF));
    assert!(fb.color.iter().all(|&c| c == bg));
}
