use termview::buffer::{Context, BACKGROUND, FAR_DEPTH};
use termview::geometry::{ScreenTriangle, ScreenVertex};
use termview::mesh::{Face, Mesh, MeshColors, Row, Transform, Vertex, DEFAULT_COLOR};
use termview::raster::{draw_mesh, draw_triangle};
use termview::shader::{default_shader, DefaultShader, Fragment, Shader};

fn sv(x: i64, y: i64, z: i64) -> ScreenVertex {
    ScreenVertex { x, y, z }
}

/// A thin triangle along the diagonal whose cell centers are exactly those
/// of cells (1,1) and (2,2) of a grid of eight-unit cells.
fn diagonal(z: i64, color: u8) -> ScreenTriangle {
    ScreenTriangle { a: sv(9, 10, z), b: sv(10, 9, z), c: sv(22, 22, z), color }
}

fn big(z: i64, color: u8) -> ScreenTriangle {
    ScreenTriangle { a: sv(-1000, -1000, z), b: sv(3000, -1000, z), c: sv(-1000, 3000, z), color }
}

fn colors(ctx: &Context) -> Vec<u8> {
    let mut out = Vec::new();
    for y in 0..ctx.height() {
        for x in 0..ctx.width() {
            out.push(ctx.color_at(x, y));
        }
    }
    out
}

fn only_diagonal(ctx: &Context, color: u8) {
    for y in 0..4 {
        for x in 0..4 {
            let want = if (x, y) == (1, 1) || (x, y) == (2, 2) { color } else { BACKGROUND };
            assert_eq!(ctx.color_at(x, y), want, "cell ({}, {})", x, y);
        }
    }
}

#[test]
fn two_triangle_occlusion_a_then_b() {
    let mut ctx = Context::new(4, 4);
    draw_triangle(&mut ctx, &diagonal(1, 65), &DefaultShader);
    draw_triangle(&mut ctx, &diagonal(2, 66), &DefaultShader);
    only_diagonal(&ctx, 65);
    assert_eq!(ctx.depth_at(1, 1), 1);
    assert_eq!(ctx.depth_at(2, 2), 1);
    assert_eq!(ctx.depth_at(0, 0), FAR_DEPTH);
}

#[test]
fn two_triangle_occlusion_b_then_a() {
    let mut ctx = Context::new(4, 4);
    draw_triangle(&mut ctx, &diagonal(2, 66), &DefaultShader);
    draw_triangle(&mut ctx, &diagonal(1, 65), &DefaultShader);
    only_diagonal(&ctx, 65);
}

#[test]
fn nearer_triangle_wins_in_either_order() {
    let near = big(5, 3);
    let far = ScreenTriangle { a: sv(0, 0, 9), b: sv(40, 0, 9), c: sv(0, 40, 9), color: 7 };
    let mut first = Context::new(6, 5);
    draw_triangle(&mut first, &near, &DefaultShader);
    draw_triangle(&mut first, &far, &DefaultShader);
    let mut second = Context::new(6, 5);
    draw_triangle(&mut second, &far, &DefaultShader);
    draw_triangle(&mut second, &near, &DefaultShader);
    assert_eq!(colors(&first), colors(&second));
    assert!(colors(&first).iter().all(|&c| c == 3));
}

#[test]
fn sloped_triangle_interpolates_depth() {
    // Depth grows with x: the cell centers at x = 4, 12, 20 get depths 4, 12, 20.
    let t = ScreenTriangle { a: sv(0, 0, 0), b: sv(64, 0, 64), c: sv(0, 64, 0), color: 9 };
    let mut ctx = Context::new(3, 1);
    draw_triangle(&mut ctx, &t, &DefaultShader);
    assert_eq!(ctx.depth_at(0, 0), 4);
    assert_eq!(ctx.depth_at(1, 0), 12);
    assert_eq!(ctx.depth_at(2, 0), 20);
}

#[test]
fn redraw_without_clear_changes_nothing() {
    let mesh = sample_mesh(MeshColors::PerFace(vec![4, 5]));
    let tr = Transform::identity();
    let mut ctx = Context::new(10, 6);
    draw_mesh(&mut ctx, &mesh, &tr, &DefaultShader);
    let once = colors(&ctx);
    let depths: Vec<i64> = (0..6).flat_map(|y| (0..10).map(move |x| (x, y))).map(|(x, y)| ctx.depth_at(x, y)).collect();
    draw_mesh(&mut ctx, &mesh, &tr, &DefaultShader);
    assert_eq!(colors(&ctx), once);
    let again: Vec<i64> = (0..6).flat_map(|y| (0..10).map(move |x| (x, y))).map(|(x, y)| ctx.depth_at(x, y)).collect();
    assert_eq!(again, depths);
    assert!(once.iter().any(|&c| c != BACKGROUND));
}

#[test]
fn clear_resets_every_cell() {
    let mut ctx = Context::new(7, 3);
    draw_triangle(&mut ctx, &big(0, 12), &DefaultShader);
    assert!(colors(&ctx).iter().all(|&c| c == 12));
    ctx.clear();
    for y in 0..3 {
        for x in 0..7 {
            assert_eq!(ctx.color_at(x, y), BACKGROUND);
            assert_eq!(ctx.depth_at(x, y), FAR_DEPTH);
        }
    }
}

#[test]
fn resize_then_draw_at_many_sizes() {
    let mut ctx = Context::blank();
    for &(w, h) in &[(0u16, 0u16), (1, 1), (80, 24), (37, 13), (0, 5), (1, 1)] {
        ctx.resize_if_needed(w, h);
        assert_eq!(ctx.width(), w as usize);
        assert_eq!(ctx.height(), h as usize);
        assert_eq!(ctx.frame.len(), w as usize * h as usize);
        assert_eq!(ctx.depth.len(), w as usize * h as usize);
        ctx.clear();
        draw_triangle(&mut ctx, &big(1, 2), &DefaultShader);
        assert!(colors(&ctx).iter().all(|&c| c == 2));
    }
}

#[test]
fn resize_to_same_size_keeps_contents() {
    let mut ctx = Context::new(5, 4);
    draw_triangle(&mut ctx, &big(1, 2), &DefaultShader);
    ctx.resize_if_needed(5, 4);
    assert!(colors(&ctx).iter().all(|&c| c == 2));
    ctx.resize_if_needed(4, 5);
    assert!(colors(&ctx).iter().all(|&c| c == BACKGROUND));
}

#[test]
fn offscreen_triangle_leaves_buffer_unchanged() {
    let mut ctx = Context::new(4, 4);
    draw_triangle(&mut ctx, &diagonal(1, 65), &DefaultShader);
    let before = colors(&ctx);
    let left = ScreenTriangle { a: sv(-50, 0, 0), b: sv(-1, 0, 0), c: sv(-50, 40, 0), color: 9 };
    let below = ScreenTriangle { a: sv(0, 32, 0), b: sv(40, 32, 0), c: sv(0, 90, 0), color: 9 };
    draw_triangle(&mut ctx, &left, &DefaultShader);
    draw_triangle(&mut ctx, &below, &DefaultShader);
    assert_eq!(colors(&ctx), before);
}

#[test]
fn degenerate_triangle_draws_nothing() {
    let mut ctx = Context::new(4, 4);
    let t = ScreenTriangle { a: sv(0, 0, 0), b: sv(0, 0, 0), c: sv(40, 40, 0), color: 9 };
    draw_triangle(&mut ctx, &t, &DefaultShader);
    let flat = ScreenTriangle { a: sv(0, 0, 0), b: sv(16, 16, 0), c: sv(32, 32, 0), color: 9 };
    draw_triangle(&mut ctx, &flat, &DefaultShader);
    assert!(colors(&ctx).iter().all(|&c| c == BACKGROUND));
}

#[test]
fn shared_edge_is_shaded_once() {
    // Two triangles split a square along its diagonal, which passes through
    // cell centers: each such center goes to exactly one of them.
    let p = sv(0, 0, 5);
    let q = sv(32, 0, 5);
    let r = sv(32, 32, 5);
    let s = sv(0, 32, 5);
    let mut upper = Context::new(4, 4);
    draw_triangle(&mut upper, &ScreenTriangle { a: p, b: q, c: r, color: 1 }, &DefaultShader);
    let mut lower = Context::new(4, 4);
    draw_triangle(&mut lower, &ScreenTriangle { a: p, b: r, c: s, color: 2 }, &DefaultShader);
    for (u, l) in colors(&upper).iter().zip(colors(&lower).iter()) {
        assert!((*u == 1) != (*l == 2));
    }
}

fn sample_mesh(colors: MeshColors) -> Mesh {
    Mesh {
        vertices: vec![
            Vertex { x: -30, y: 20, z: 0 },
            Vertex { x: 30, y: 20, z: 0 },
            Vertex { x: -30, y: -20, z: 0 },
            Vertex { x: 30, y: -20, z: 10 },
        ],
        faces: vec![Face { a: 0, b: 1, c: 2 }, Face { a: 1, b: 3, c: 2 }],
        colors,
    }
}

#[test]
fn mesh_colors_per_face_vertex_and_default() {
    let tr = Transform::identity();
    let mut ctx = Context::new(10, 6);
    draw_mesh(&mut ctx, &sample_mesh(MeshColors::PerFace(vec![4, 5])), &tr, &DefaultShader);
    // Screen center is (40, 24); the first face holds the upper left.
    assert_eq!(ctx.color_at(3, 1), 4);
    assert_eq!(ctx.color_at(6, 4), 5);
    let mut ctx = Context::new(10, 6);
    draw_mesh(&mut ctx, &sample_mesh(MeshColors::PerVertex(vec![1, 8, 2, 3])), &tr, &DefaultShader);
    assert_eq!(ctx.color_at(3, 1), 1);
    assert_eq!(ctx.color_at(6, 4), 8);
    let mut ctx = Context::new(10, 6);
    draw_mesh(&mut ctx, &sample_mesh(MeshColors::Uniform), &tr, &DefaultShader);
    assert_eq!(ctx.color_at(3, 1), DEFAULT_COLOR);
    assert_eq!(ctx.color_at(0, 0), BACKGROUND);
}

#[test]
fn transform_scales_and_translates() {
    // Twice the size, then moved right by 8 units.
    let tr = Transform {
        rx: Row { x: 2048, y: 0, z: 0, w: 8192 },
        ry: Row { x: 0, y: 2048, z: 0, w: 0 },
        rz: Row { x: 0, y: 0, z: 1024, w: 0 },
    };
    let mesh = Mesh {
        vertices: vec![
            Vertex { x: 0, y: 0, z: 3 },
            Vertex { x: 4, y: 0, z: 3 },
            Vertex { x: 0, y: -6, z: 3 },
        ],
        faces: vec![Face { a: 0, b: 1, c: 2 }],
        colors: MeshColors::PerFace(vec![6]),
    };
    // The screen center of a 4 by 2 grid is (16, 8): the face lands on
    // (24, 8), (32, 8), (24, 20), which holds the center (28, 12) of cell (3, 1).
    let mut c = Context::new(4, 2);
    draw_mesh(&mut c, &mesh, &tr, &DefaultShader);
    assert_eq!(c.color_at(3, 1), 6);
    assert_eq!(c.depth_at(3, 1), 3);
    assert_eq!(c.color_at(2, 1), BACKGROUND);
    assert_eq!(c.color_at(3, 0), BACKGROUND);
    assert_eq!(c.depth_at(2, 1), FAR_DEPTH);
}

#[test]
fn default_shader_forwards_the_color() {
    let mut ctx = Context::new(4, 4);
    draw_triangle(&mut ctx, &diagonal(1, 250), &DefaultShader);
    only_diagonal(&ctx, 250);
    let f = Fragment { x: 1, y: 2, depth: 3, color: 44 };
    assert_eq!(default_shader(f), 44);
    assert_eq!(DefaultShader.shade(f), 44);
}
