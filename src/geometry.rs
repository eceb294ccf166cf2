use vstd::prelude::*;

verus! {

/// Subdivisions of a cell along each axis in screen coordinates: the cell in
/// column `c` spans `[c * SUBCELL, (c + 1) * SUBCELL)` and has its center at
/// `c * SUBCELL + SUBCELL / 2`.
pub const SUBCELL: i64 = 8;

/// Bound on the magnitude of every screen coordinate.
pub const COORD_LIMIT: i64 = 0x4_0000_0000;

/// Integer division rounding toward zero, as Rust's `/` does.
pub open spec fn tdiv(a: int, b: int) -> int {
    if a >= 0 {
        a / b
    } else {
        -((-a) / b)
    }
}

/// Screen coordinate of the center of cell `c`.
pub open spec fn center(c: int) -> int {
    c * SUBCELL + SUBCELL / 2
}

/// A projected vertex: `x` grows to the right, `y` downward, and a smaller
/// `z` is nearer to the viewer.
#[derive(Clone, Copy, Debug, PartialEq, Eq)]
pub struct ScreenVertex {
    pub x: i64,
    pub y: i64,
    pub z: i64,
}

/// A projected triangle with the color it is shaded from.
#[derive(Clone, Copy, Debug, PartialEq, Eq)]
pub struct ScreenTriangle {
    pub a: ScreenVertex,
    pub b: ScreenVertex,
    pub c: ScreenVertex,
    pub color: u8,
}

impl ScreenVertex {
    pub open spec fn bounded(&self) -> bool {
        &&& -COORD_LIMIT <= self.x <= COORD_LIMIT
        &&& -COORD_LIMIT <= self.y <= COORD_LIMIT
        &&& -COORD_LIMIT <= self.z <= COORD_LIMIT
    }
}

impl ScreenTriangle {
    pub open spec fn bounded(&self) -> bool {
        self.a.bounded() && self.b.bounded() && self.c.bounded()
    }
}

/// Twice the signed area of `(a, b, p)`: positive when `p` lies on one side
/// of the line from `a` to `b`, negative on the other, zero on it.
pub open spec fn edge(a: ScreenVertex, b: ScreenVertex, px: int, py: int) -> int {
    (b.x - a.x) * (py - a.y) - (b.y - a.y) * (px - a.x)
}

/// Twice the signed area of a triangle.
pub open spec fn area(t: ScreenTriangle) -> int {
    edge(t.a, t.b, t.c.x as int, t.c.y as int)
}

/// The triangle with its last two vertices swapped when its area is negative.
pub open spec fn oriented(t: ScreenTriangle) -> ScreenTriangle {
    if area(t) < 0 {
        ScreenTriangle { a: t.a, b: t.c, c: t.b, color: t.color }
    } else {
        t
    }
}

/// Tie-break for a point exactly on the directed edge from `a` to `b`: of two
/// triangles that share the edge, one walks it from `a` to `b` and the other
/// from `b` to `a`, and for distinct endpoints exactly one of them owns it.
pub open spec fn owns_edge(a: ScreenVertex, b: ScreenVertex) -> bool {
    a.y > b.y || (a.y == b.y && a.x < b.x)
}

/// A point on an edge between two distinct vertices is owned from exactly
/// one of the two directions in which the edge can be walked.
pub proof fn lemma_edge_owned_once(a: ScreenVertex, b: ScreenVertex)
    requires
        a.x != b.x || a.y != b.y,
    ensures
        owns_edge(a, b) != owns_edge(b, a),
{
}

pub open spec fn edge_admits(a: ScreenVertex, b: ScreenVertex, px: int, py: int) -> bool {
    edge(a, b, px, py) > 0 || (edge(a, b, px, py) == 0 && owns_edge(a, b))
}

/// The point lies inside the (non-degenerate) triangle, edges resolved by
/// `owns_edge`.
pub open spec fn inside(t: ScreenTriangle, px: int, py: int) -> bool {
    let o = oriented(t);
    &&& area(o) > 0
    &&& edge_admits(o.b, o.c, px, py)
    &&& edge_admits(o.c, o.a, px, py)
    &&& edge_admits(o.a, o.b, px, py)
}

pub open spec fn min3(a: int, b: int, c: int) -> int {
    if a <= b && a <= c {
        a
    } else if b <= c {
        b
    } else {
        c
    }
}

pub open spec fn max3(a: int, b: int, c: int) -> int {
    if a >= b && a >= c {
        a
    } else if b >= c {
        b
    } else {
        c
    }
}

/// The point lies in the triangle's bounding box.
pub open spec fn in_bbox(t: ScreenTriangle, px: int, py: int) -> bool {
    &&& min3(t.a.x as int, t.b.x as int, t.c.x as int) <= px
    &&& px <= max3(t.a.x as int, t.b.x as int, t.c.x as int)
    &&& min3(t.a.y as int, t.b.y as int, t.c.y as int) <= py
    &&& py <= max3(t.a.y as int, t.b.y as int, t.c.y as int)
}

/// The triangle covers the cell in column `cx` and row `cy`.
pub open spec fn covers(t: ScreenTriangle, cx: int, cy: int) -> bool {
    in_bbox(t, center(cx), center(cy)) && inside(t, center(cx), center(cy))
}

/// Depth at a point, interpolated from the vertices' depths by barycentric
/// weights and rounded toward zero.
pub open spec fn depth_at(t: ScreenTriangle, px: int, py: int) -> int {
    let o = oriented(t);
    tdiv(
        edge(o.b, o.c, px, py) * o.a.z + edge(o.c, o.a, px, py) * o.b.z + edge(o.a, o.b, px, py)
            * o.c.z,
        area(o),
    )
}

/// Depth of the triangle at the center of a cell.
pub open spec fn cell_depth(t: ScreenTriangle, cx: int, cy: int) -> int {
    depth_at(t, center(cx), center(cy))
}

pub proof fn lemma_mul_bound(a: int, b: int, ba: int, bb: int)
    requires
        -ba <= a <= ba,
        -bb <= b <= bb,
    ensures
        -(ba * bb) <= a * b <= ba * bb,
{
    assert(-(ba * bb) <= a * b <= ba * bb) by (nonlinear_arith)
        requires -ba <= a <= ba, -bb <= b <= bb;
}

/// Bound on the edge function for bounded vertices and a bounded point.
pub proof fn lemma_edge_bound(a: ScreenVertex, b: ScreenVertex, px: int, py: int)
    requires
        a.bounded(),
        b.bounded(),
        -COORD_LIMIT <= px <= COORD_LIMIT,
        -COORD_LIMIT <= py <= COORD_LIMIT,
    ensures
        -0x80_0000_0000_0000_0000 <= edge(a, b, px, py) <= 0x80_0000_0000_0000_0000,
{
    let l: int = 0x8_0000_0000;
    assert(l * l == 0x40_0000_0000_0000_0000) by (nonlinear_arith)
        requires l == 0x8_0000_0000;
    lemma_mul_bound(b.x - a.x, py - a.y, l, l);
    lemma_mul_bound(b.y - a.y, px - a.x, l, l);
}

/// The three barycentric weights sum to the area.
pub proof fn lemma_weights_sum(t: ScreenTriangle, px: int, py: int)
    ensures
        edge(t.b, t.c, px, py) + edge(t.c, t.a, px, py) + edge(t.a, t.b, px, py) == area(t),
{
    let (ax, ay, bx, by, cx, cy) = (
        t.a.x as int,
        t.a.y as int,
        t.b.x as int,
        t.b.y as int,
        t.c.x as int,
        t.c.y as int,
    );
    lemma_expand(cx, bx, py, by);
    lemma_expand(cy, by, px, bx);
    lemma_expand(ax, cx, py, cy);
    lemma_expand(ay, cy, px, cx);
    lemma_expand(bx, ax, py, ay);
    lemma_expand(by, ay, px, ax);
    lemma_expand(bx, ax, cy, ay);
    lemma_expand(by, ay, cx, ax);
}

proof fn lemma_expand(a: int, b: int, c: int, d: int)
    ensures
        (a - b) * (c - d) == a * c - a * d - b * c + b * d,
{
    assert((a - b) * (c - d) == a * c - a * d - b * c + b * d) by (nonlinear_arith);
}

} // verus!
