use vstd::prelude::*;
use crate::buffer::{cell_index, index_of, lemma_cell_index_bounds, lemma_cell_index_injective, Context, MAX_DIM};
use crate::geometry::{
    area, cell_depth, center, depth_at, covers, edge, edge_admits, inside, lemma_edge_bound,
    lemma_mul_bound, lemma_weights_sum, max3, min3, oriented, owns_edge, ScreenTriangle,
    ScreenVertex, COORD_LIMIT, SUBCELL,
};
use crate::mesh::{face_color, project_fn, screen_triangle, screen_triangles, Mesh, MeshColors, Transform, DEFAULT_COLOR};
use crate::shader::{Fragment, Shader};

verus! {

/// Color and depth of the cell in column `x` and row `y`.
pub open spec fn state_of(frame: Seq<u8>, depth: Seq<i64>, width: int, x: int, y: int) -> (u8, int) {
    (frame[cell_index(width, x, y)], depth[cell_index(width, x, y)] as int)
}

/// What drawing `t` makes of a cell in state `st`: a covered cell on which
/// the triangle is strictly nearer takes its depth and shaded color, any other
/// cell keeps its state.
pub open spec fn raster_cell<S: Shader>(st: (u8, int), t: ScreenTriangle, s: S, x: int, y: int) -> (u8, int) {
    let d = cell_depth(t, x, y);
    if covers(t, x, y) && d < st.1 {
        (s.shade_spec(Fragment { x: x as usize, y: y as usize, depth: d as i64, color: t.color }), d)
    } else {
        st
    }
}

/// Swapping the last two vertices negates the area.
pub proof fn lemma_area_swap(t: ScreenTriangle)
    ensures
        area(ScreenTriangle { a: t.a, b: t.c, c: t.b, color: t.color }) == -area(t),
{
    let (ax, ay, bx, by, cx, cy) = (
        t.a.x as int,
        t.a.y as int,
        t.b.x as int,
        t.b.y as int,
        t.c.x as int,
        t.c.y as int,
    );
    assert((cx - ax) * (by - ay) - (cy - ay) * (bx - ax) == -((bx - ax) * (cy - ay) - (by - ay) * (
    cx - ax))) by (nonlinear_arith);
}

/// The interpolated depth inside a triangle lies within the coordinate bound.
pub proof fn lemma_depth_bound(t: ScreenTriangle, px: int, py: int)
    requires
        t.bounded(),
        inside(t, px, py),
    ensures
        -COORD_LIMIT <= depth_at(t, px, py) <= COORD_LIMIT,
{
    let o = oriented(t);
    let w0 = edge(o.b, o.c, px, py);
    let w1 = edge(o.c, o.a, px, py);
    let w2 = edge(o.a, o.b, px, py);
    let z = COORD_LIMIT as int;
    let n = w0 * o.a.z + w1 * o.b.z + w2 * o.c.z;
    lemma_weights_sum(o, px, py);
    assert(-(w0 * z) <= w0 * o.a.z <= w0 * z) by (nonlinear_arith)
        requires w0 >= 0, -z <= o.a.z <= z;
    assert(-(w1 * z) <= w1 * o.b.z <= w1 * z) by (nonlinear_arith)
        requires w1 >= 0, -z <= o.b.z <= z;
    assert(-(w2 * z) <= w2 * o.c.z <= w2 * z) by (nonlinear_arith)
        requires w2 >= 0, -z <= o.c.z <= z;
    assert(w0 * z + w1 * z + w2 * z == area(o) * z) by (nonlinear_arith)
        requires w0 + w1 + w2 == area(o);
    let a = area(o);
    if n >= 0 {
        assert(n / a <= z) by (nonlinear_arith)
            requires 0 <= n <= a * z, a > 0;
    } else {
        assert((-n) / a <= z) by (nonlinear_arith)
            requires 0 < -n <= a * z, a > 0;
    }
}

fn edge_fn(a: ScreenVertex, b: ScreenVertex, px: i64, py: i64) -> (r: i128)
    requires
        a.bounded(),
        b.bounded(),
        -COORD_LIMIT <= px <= COORD_LIMIT,
        -COORD_LIMIT <= py <= COORD_LIMIT,
    ensures
        r == edge(a, b, px as int, py as int),
        -0x80_0000_0000_0000_0000 <= r <= 0x80_0000_0000_0000_0000,
{
    proof {
        lemma_edge_bound(a, b, px as int, py as int);
        let l: int = 0x8_0000_0000;
        lemma_mul_bound(b.x - a.x, py - a.y, l, l);
        lemma_mul_bound(b.y - a.y, px - a.x, l, l);
        assert(l * l == 0x40_0000_0000_0000_0000) by (nonlinear_arith)
            requires l == 0x8_0000_0000;
    }
    let p = ((b.x - a.x) as i128) * ((py - a.y) as i128);
    let q = ((b.y - a.y) as i128) * ((px - a.x) as i128);
    p - q
}

fn owns_edge_fn(a: ScreenVertex, b: ScreenVertex) -> (r: bool)
    ensures
        r == owns_edge(a, b),
{
    a.y > b.y || (a.y == b.y && a.x < b.x)
}

fn admits(w: i128, a: ScreenVertex, b: ScreenVertex, px: i64, py: i64) -> (r: bool)
    requires
        w == edge(a, b, px as int, py as int),
    ensures
        r == edge_admits(a, b, px as int, py as int),
{
    w > 0 || (w == 0 && owns_edge_fn(a, b))
}

fn min3_fn(a: i64, b: i64, c: i64) -> (r: i64)
    ensures
        r == min3(a as int, b as int, c as int),
{
    if a <= b && a <= c {
        a
    } else if b <= c {
        b
    } else {
        c
    }
}

fn max3_fn(a: i64, b: i64, c: i64) -> (r: i64)
    ensures
        r == max3(a as int, b as int, c as int),
{
    if a >= b && a >= c {
        a
    } else if b >= c {
        b
    } else {
        c
    }
}

/// The range `[s, e)` of cells among `n` whose centers may lie in `[lo, hi]`:
/// every cell whose center does lies in it.
fn cell_span(lo: i64, hi: i64, n: usize) -> (r: (usize, usize))
    requires
        n <= MAX_DIM,
        -COORD_LIMIT <= lo <= COORD_LIMIT,
        -COORD_LIMIT <= hi <= COORD_LIMIT,
    ensures
        r.0 <= r.1 <= n,
        forall|c: int| 0 <= c < n && lo <= #[trigger] center(c) <= hi ==> r.0 <= c < r.1,
{
    let half: i64 = SUBCELL / 2;
    let nn = n as i64;
    let mut s: i64 = if lo <= half {
        0
    } else {
        (lo - half + SUBCELL - 1) / SUBCELL
    };
    let mut e: i64 = if hi < half {
        0
    } else {
        (hi - half) / SUBCELL + 1
    };
    proof {
        assert forall|c: int| 0 <= c < n && lo <= #[trigger] center(c) <= hi implies s <= c < e by {
            if lo > half {
                let k = lo - half;
                assert(c >= (k + 7) / 8) by (nonlinear_arith)
                    requires k > 0, 8 * c + 4 >= k + 4;
            }
            assert(hi >= half);
            let m = hi - half;
            assert(c < m / 8 + 1) by (nonlinear_arith)
                requires m >= 0, 8 * c + 4 <= m + 4;
        }
    }
    if s > nn {
        s = nn;
    }
    if e > nn {
        e = nn;
    }
    if e < s {
        e = s;
    }
    (s as usize, e as usize)
}

/// The triangle with positive or zero area, and that area.
fn orient(t: ScreenTriangle) -> (r: (ScreenTriangle, i128))
    requires
        t.bounded(),
    ensures
        r.0 == oriented(t),
        r.1 == area(r.0),
        r.1 >= 0,
        r.0.bounded(),
{
    let ar = edge_fn(t.a, t.b, t.c.x, t.c.y);
    if ar < 0 {
        proof {
            lemma_area_swap(t);
        }
        let o = ScreenTriangle { a: t.a, b: t.c, c: t.b, color: t.color };
        (o, -ar)
    } else {
        (t, ar)
    }
}

/// The expected state of a cell while the cells before `(cx, cy)` in row-major
/// order of the bounding box have been drawn.
pub open spec fn partly_drawn<S: Shader>(
    frame: Seq<u8>,
    depth: Seq<i64>,
    width: int,
    t: ScreenTriangle,
    s: S,
    x: int,
    y: int,
    cx: int,
    cy: int,
) -> (u8, int) {
    if y < cy || (y == cy && x < cx) {
        raster_cell(state_of(frame, depth, width, x, y), t, s, x, y)
    } else {
        state_of(frame, depth, width, x, y)
    }
}

/// Rasterizes one triangle into the buffers.
pub fn draw_triangle<S: Shader>(ctx: &mut Context, t: &ScreenTriangle, s: &S)
    requires
        old(ctx).wf(),
        t.bounded(),
    ensures
        final(ctx).wf(),
        final(ctx).width == old(ctx).width,
        final(ctx).height == old(ctx).height,
        forall|x: int, y: int|
            0 <= x < old(ctx).width && 0 <= y < old(ctx).height ==> #[trigger] state_of(
                final(ctx).frame@,
                final(ctx).depth@,
                old(ctx).width as int,
                x,
                y,
            ) == raster_cell(
                state_of(old(ctx).frame@, old(ctx).depth@, old(ctx).width as int, x, y),
                *t,
                *s,
                x,
                y,
            ),
{
    let ghost f0 = ctx.frame@;
    let ghost d0 = ctx.depth@;
    let ghost w = ctx.width as int;
    let ghost h = ctx.height as int;
    let (o, ar) = orient(*t);
    if ar == 0 {
        proof {
            assert forall|x: int, y: int| 0 <= x < w && 0 <= y < h implies #[trigger] state_of(
                f0,
                d0,
                w,
                x,
                y,
            ) == raster_cell(state_of(f0, d0, w, x, y), *t, *s, x, y) by {}
        }
        return;
    }
    let minx = min3_fn(t.a.x, t.b.x, t.c.x);
    let maxx = max3_fn(t.a.x, t.b.x, t.c.x);
    let miny = min3_fn(t.a.y, t.b.y, t.c.y);
    let maxy = max3_fn(t.a.y, t.b.y, t.c.y);
    let (x_lo, x_hi) = cell_span(minx, maxx, ctx.width);
    let (y_lo, y_hi) = cell_span(miny, maxy, ctx.height);
    let mut cy: usize = y_lo;
    while cy < y_hi
        invariant
            ctx.wf(),
            ctx.width == w,
            ctx.height == h,
            o == oriented(*t),
            ar == area(o),
            ar > 0,
            o.bounded(),
            y_lo <= cy <= y_hi <= h,
            x_lo <= x_hi <= w,
            forall|c: int| 0 <= c < w && minx <= #[trigger] center(c) <= maxx ==> x_lo <= c < x_hi,
            forall|c: int| 0 <= c < h && miny <= #[trigger] center(c) <= maxy ==> y_lo <= c < y_hi,
            minx == min3(t.a.x as int, t.b.x as int, t.c.x as int),
            maxx == max3(t.a.x as int, t.b.x as int, t.c.x as int),
            miny == min3(t.a.y as int, t.b.y as int, t.c.y as int),
            maxy == max3(t.a.y as int, t.b.y as int, t.c.y as int),
            forall|x: int, y: int|
                0 <= x < w && 0 <= y < h ==> #[trigger] state_of(ctx.frame@, ctx.depth@, w, x, y)
                    == partly_drawn(f0, d0, w, *t, *s, x, y, 0, cy as int),
        decreases y_hi - cy,
    {
        let mut cx: usize = x_lo;
        while cx < x_hi
            invariant
                ctx.wf(),
                ctx.width == w,
                ctx.height == h,
                o == oriented(*t),
                ar == area(o),
                ar > 0,
                o.bounded(),
                y_lo <= cy < y_hi <= h,
                x_lo <= cx <= x_hi <= w,
                forall|c: int| 0 <= c < w && minx <= #[trigger] center(c) <= maxx ==> x_lo <= c < x_hi,
                minx == min3(t.a.x as int, t.b.x as int, t.c.x as int),
                maxx == max3(t.a.x as int, t.b.x as int, t.c.x as int),
                miny == min3(t.a.y as int, t.b.y as int, t.c.y as int),
                maxy == max3(t.a.y as int, t.b.y as int, t.c.y as int),
                forall|x: int, y: int|
                    0 <= x < w && 0 <= y < h ==> #[trigger] state_of(ctx.frame@, ctx.depth@, w, x, y)
                        == partly_drawn(f0, d0, w, *t, *s, x, y, cx as int, cy as int),
            decreases x_hi - cx,
        {
            draw_cell(ctx, t, s, o, ar, cx, cy, minx, maxx, miny, maxy);
            cx = cx + 1;
        }
        cy = cy + 1;
    }
}

/// Draws the triangle into the single cell in column `cx` and row `cy`.
fn draw_cell<S: Shader>(
    ctx: &mut Context,
    t: &ScreenTriangle,
    s: &S,
    o: ScreenTriangle,
    ar: i128,
    cx: usize,
    cy: usize,
    minx: i64,
    maxx: i64,
    miny: i64,
    maxy: i64,
)
    requires
        old(ctx).wf(),
        t.bounded(),
        o == oriented(*t),
        o.bounded(),
        ar == area(o),
        ar > 0,
        cx < old(ctx).width,
        cy < old(ctx).height,
        minx == min3(t.a.x as int, t.b.x as int, t.c.x as int),
        maxx == max3(t.a.x as int, t.b.x as int, t.c.x as int),
        miny == min3(t.a.y as int, t.b.y as int, t.c.y as int),
        maxy == max3(t.a.y as int, t.b.y as int, t.c.y as int),
    ensures
        final(ctx).wf(),
        final(ctx).width == old(ctx).width,
        final(ctx).height == old(ctx).height,
        forall|x: int, y: int|
            0 <= x < old(ctx).width && 0 <= y < old(ctx).height ==> #[trigger] state_of(
                final(ctx).frame@,
                final(ctx).depth@,
                old(ctx).width as int,
                x,
                y,
            ) == if x == cx && y == cy {
                raster_cell(
                    state_of(old(ctx).frame@, old(ctx).depth@, old(ctx).width as int, x, y),
                    *t,
                    *s,
                    x,
                    y,
                )
            } else {
                state_of(old(ctx).frame@, old(ctx).depth@, old(ctx).width as int, x, y)
            },
{
    let ghost w = ctx.width as int;
    let ghost h = ctx.height as int;
    let px: i64 = (cx as i64) * SUBCELL + SUBCELL / 2;
    let py: i64 = (cy as i64) * SUBCELL + SUBCELL / 2;
    assert(px == center(cx as int) && py == center(cy as int));
    proof {
        lemma_cell_index_bounds(w, h, cx as int, cy as int);
        assert forall|x: int, y: int|
            0 <= x < w && 0 <= y < h && !(x == cx && y == cy) implies cell_index(w, x, y)
            != cell_index(w, cx as int, cy as int) by {
            if cell_index(w, x, y) == cell_index(w, cx as int, cy as int) {
                lemma_cell_index_injective(w, x, y, cx as int, cy as int);
            }
        }
    }
    if minx <= px && px <= maxx && miny <= py && py <= maxy {
        let w0 = edge_fn(o.b, o.c, px, py);
        let w1 = edge_fn(o.c, o.a, px, py);
        let w2 = edge_fn(o.a, o.b, px, py);
        if admits(w0, o.b, o.c, px, py) && admits(w1, o.c, o.a, px, py) && admits(w2, o.a, o.b, px, py) {
            proof {
                lemma_depth_bound(*t, px as int, py as int);
                let (l, z): (int, int) = (0x80_0000_0000_0000_0000, 0x4_0000_0000);
                lemma_mul_bound(w0 as int, o.a.z as int, l, z);
                lemma_mul_bound(w1 as int, o.b.z as int, l, z);
                lemma_mul_bound(w2 as int, o.c.z as int, l, z);
                assert(l * z == 0x200_0000_0000_0000_0000_0000_0000) by (nonlinear_arith)
                    requires l == 0x80_0000_0000_0000_0000, z == 0x4_0000_0000;
            }
            let num = w0 * (o.a.z as i128) + w1 * (o.b.z as i128) + w2 * (o.c.z as i128);
            let d = (num / ar) as i64;
            assert(covers(*t, cx as int, cy as int));
            assert(d == cell_depth(*t, cx as int, cy as int));
            let i = index_of(ctx.width, ctx.height, cx, cy);
            if d < ctx.depth[i] {
                let c = s.shade(Fragment { x: cx, y: cy, depth: d, color: t.color });
                ctx.frame.set(i, c);
                ctx.depth.set(i, d);
                assert(state_of(ctx.frame@, ctx.depth@, w, cx as int, cy as int) == raster_cell(state_of(old(ctx).frame@, old(ctx).depth@, w, cx as int, cy as int), *t, *s, cx as int, cy as int));
            } else {
                assert(state_of(ctx.frame@, ctx.depth@, w, cx as int, cy as int) == raster_cell(state_of(old(ctx).frame@, old(ctx).depth@, w, cx as int, cy as int), *t, *s, cx as int, cy as int));
            }
        } else {
            assert(!inside(*t, px as int, py as int));
            assert(!covers(*t, cx as int, cy as int));
        }
    } else {
        assert(!covers(*t, cx as int, cy as int));
    }
    proof {
        assert forall|x: int, y: int|
            0 <= x < w && 0 <= y < h implies #[trigger] state_of(ctx.frame@, ctx.depth@, w, x, y)
            == if x == cx && y == cy {
                raster_cell(state_of(old(ctx).frame@, old(ctx).depth@, w, x, y), *t, *s, x, y)
            } else {
                state_of(old(ctx).frame@, old(ctx).depth@, w, x, y)
            } by {
            if !(x == cx && y == cy) {
                lemma_cell_index_bounds(w, h, x, y);
                assert(cell_index(w, x, y) != cell_index(w, cx as int, cy as int));
            }
        }
    }
}

/// What drawing the triangles `ts` in order makes of a cell in state `st`.
pub open spec fn draw_all<S: Shader>(st: (u8, int), ts: Seq<ScreenTriangle>, s: S, x: int, y: int) -> (u8, int)
    decreases ts.len(),
{
    if ts.len() == 0 {
        st
    } else {
        raster_cell(draw_all(st, ts.drop_last(), s, x, y), ts.last(), s, x, y)
    }
}

fn face_color_fn(m: &Mesh, k: usize) -> (c: u8)
    requires
        m.wf(),
        k < m.faces@.len(),
    ensures
        c == face_color(*m, k as int),
{
    match &m.colors {
        MeshColors::Uniform => DEFAULT_COLOR,
        MeshColors::PerVertex(c) => c[m.faces[k].a],
        MeshColors::PerFace(c) => c[k],
    }
}

/// Rasterizes every face of `m`, in order, under the transform `tr`.
pub fn draw_mesh<S: Shader>(ctx: &mut Context, m: &Mesh, tr: &Transform, s: &S)
    requires
        old(ctx).wf(),
        m.wf(),
        tr.wf(),
    ensures
        final(ctx).wf(),
        final(ctx).width == old(ctx).width,
        final(ctx).height == old(ctx).height,
        forall|x: int, y: int|
            0 <= x < old(ctx).width && 0 <= y < old(ctx).height ==> #[trigger] state_of(
                final(ctx).frame@,
                final(ctx).depth@,
                old(ctx).width as int,
                x,
                y,
            ) == draw_all(
                state_of(old(ctx).frame@, old(ctx).depth@, old(ctx).width as int, x, y),
                screen_triangles(*m, *tr, old(ctx).width as int, old(ctx).height as int),
                *s,
                x,
                y,
            ),
{
    let ghost f0 = ctx.frame@;
    let ghost d0 = ctx.depth@;
    let ghost w = ctx.width as int;
    let ghost h = ctx.height as int;
    let ghost all = screen_triangles(*m, *tr, w, h);
    let mut k: usize = 0;
    while k < m.faces.len()
        invariant
            ctx.wf(),
            m.wf(),
            tr.wf(),
            ctx.width == w,
            ctx.height == h,
            all == screen_triangles(*m, *tr, w, h),
            k <= m.faces@.len(),
            forall|x: int, y: int|
                0 <= x < w && 0 <= y < h ==> #[trigger] state_of(ctx.frame@, ctx.depth@, w, x, y)
                    == draw_all(state_of(f0, d0, w, x, y), all.take(k as int), *s, x, y),
        decreases m.faces@.len() - k,
    {
        let f = m.faces[k];
        let t = ScreenTriangle {
            a: project_fn(tr, m.vertices[f.a], ctx.width, ctx.height),
            b: project_fn(tr, m.vertices[f.b], ctx.width, ctx.height),
            c: project_fn(tr, m.vertices[f.c], ctx.width, ctx.height),
            color: face_color_fn(m, k),
        };
        assert(t == screen_triangle(*m, *tr, w, h, k as int));
        let ghost f1 = ctx.frame@;
        let ghost d1 = ctx.depth@;
        draw_triangle(ctx, &t, s);
        proof {
            assert(all.take(k + 1).drop_last() =~= all.take(k as int));
            assert forall|x: int, y: int|
                0 <= x < w && 0 <= y < h implies #[trigger] state_of(ctx.frame@, ctx.depth@, w, x, y)
                == draw_all(state_of(f0, d0, w, x, y), all.take(k + 1), *s, x, y) by {
                assert(state_of(f1, d1, w, x, y) == draw_all(state_of(f0, d0, w, x, y), all.take(k as int), *s, x, y));
            }
        }
        k = k + 1;
    }
    assert(all.take(k as int) =~= all);
}

/// The state a cell takes when `t` is drawn over it and wins the depth test.
pub open spec fn shaded<S: Shader>(t: ScreenTriangle, s: S, x: int, y: int) -> (u8, int) {
    let d = cell_depth(t, x, y);
    (s.shade_spec(Fragment { x: x as usize, y: y as usize, depth: d as i64, color: t.color }), d)
}

/// Where two triangles cover a cell and `a` is strictly nearer there than
/// `b` and than what the cell holds, the cell ends up shaded from `a`,
/// whichever of the two is drawn first.
pub proof fn lemma_nearer_wins<S: Shader>(st: (u8, int), a: ScreenTriangle, b: ScreenTriangle, s: S, x: int, y: int)
    requires
        covers(a, x, y),
        covers(b, x, y),
        cell_depth(a, x, y) < cell_depth(b, x, y),
        cell_depth(a, x, y) < st.1,
    ensures
        raster_cell(raster_cell(st, a, s, x, y), b, s, x, y) == shaded(a, s, x, y),
        raster_cell(raster_cell(st, b, s, x, y), a, s, x, y) == shaded(a, s, x, y),
{
}

/// After drawing `ts`, the cell is no farther than any triangle of `ts` that
/// covers it.
proof fn lemma_draw_all_nearest<S: Shader>(st: (u8, int), ts: Seq<ScreenTriangle>, s: S, x: int, y: int, j: int)
    requires
        0 <= j < ts.len(),
        covers(ts[j], x, y),
    ensures
        draw_all(st, ts, s, x, y).1 <= cell_depth(ts[j], x, y),
    decreases ts.len(),
{
    if j < ts.len() - 1 {
        lemma_draw_all_nearest(st, ts.drop_last(), s, x, y, j);
    }
}

/// Drawing `ts` over a cell that is already no farther than every triangle
/// of `ts` covering it leaves the cell as it is.
proof fn lemma_draw_all_settled<S: Shader>(st: (u8, int), ts: Seq<ScreenTriangle>, s: S, x: int, y: int)
    requires
        forall|j: int| 0 <= j < ts.len() && covers(ts[j], x, y) ==> st.1 <= #[trigger] cell_depth(ts[j], x, y),
    ensures
        draw_all(st, ts, s, x, y) == st,
    decreases ts.len(),
{
    if ts.len() > 0 {
        let init = ts.drop_last();
        assert forall|j: int| 0 <= j < init.len() && covers(init[j], x, y) implies st.1 <= #[trigger] cell_depth(init[j], x, y) by {
            assert(init[j] == ts[j]);
        }
        lemma_draw_all_settled(st, init, s, x, y);
        assert(ts.last() == ts[ts.len() - 1]);
    }
}

/// Drawing the same triangles a second time, with no clear in between,
/// changes nothing: a tie in depth does not shade again.
pub proof fn lemma_redraw_idempotent<S: Shader>(st: (u8, int), ts: Seq<ScreenTriangle>, s: S, x: int, y: int)
    ensures
        draw_all(draw_all(st, ts, s, x, y), ts, s, x, y) == draw_all(st, ts, s, x, y),
{
    let once = draw_all(st, ts, s, x, y);
    assert forall|j: int| 0 <= j < ts.len() && covers(ts[j], x, y) implies once.1 <= #[trigger] cell_depth(ts[j], x, y) by {
        lemma_draw_all_nearest(st, ts, s, x, y, j);
    }
    lemma_draw_all_settled(once, ts, s, x, y);
}

/// A triangle whose bounding box lies wholly outside a screen of `width` by
/// `height` cells leaves every cell of that screen as it was.
pub proof fn lemma_offscreen_unchanged<S: Shader>(
    st: (u8, int),
    t: ScreenTriangle,
    s: S,
    width: int,
    height: int,
    x: int,
    y: int,
)
    requires
        0 <= x < width,
        0 <= y < height,
        max3(t.a.x as int, t.b.x as int, t.c.x as int) < 0
            || min3(t.a.x as int, t.b.x as int, t.c.x as int) >= width * SUBCELL
            || max3(t.a.y as int, t.b.y as int, t.c.y as int) < 0
            || min3(t.a.y as int, t.b.y as int, t.c.y as int) >= height * SUBCELL,
    ensures
        !covers(t, x, y),
        raster_cell(st, t, s, x, y) == st,
{
    assert(0 <= center(x) < width * SUBCELL) by (nonlinear_arith)
        requires 0 <= x < width;
    assert(0 <= center(y) < height * SUBCELL) by (nonlinear_arith)
        requires 0 <= y < height;
}

/// A triangle with two coincident projected vertices covers no cell.
pub proof fn lemma_degenerate_covers_nothing(t: ScreenTriangle, x: int, y: int)
    requires
        (t.a.x == t.b.x && t.a.y == t.b.y) || (t.b.x == t.c.x && t.b.y == t.c.y) || (t.c.x == t.a.x
            && t.c.y == t.a.y),
    ensures
        !covers(t, x, y),
{
    let (ax, ay, bx, by, cx, cy) = (
        t.a.x as int,
        t.a.y as int,
        t.b.x as int,
        t.b.y as int,
        t.c.x as int,
        t.c.y as int,
    );
    assert((bx - ax) * (cy - ay) - (by - ay) * (cx - ax) == 0) by (nonlinear_arith)
        requires
            (ax == bx && ay == by) || (bx == cx && by == cy) || (cx == ax && cy == ay);
    assert(area(t) == 0);
    lemma_area_swap(t);
}

} // verus!
