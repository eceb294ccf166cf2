use vstd::prelude::*;
use crate::geometry::{lemma_mul_bound, tdiv, ScreenTriangle, ScreenVertex, SUBCELL};

verus! {

/// Bound on the magnitude of model coordinates and transform entries.
pub const MODEL_LIMIT: i64 = 0x10_0000;

/// The transform's fixed-point unit: an entry of `FIXED_ONE` stands for 1.
pub const FIXED_ONE: i64 = 1024;

/// Color of a triangle whose mesh carries no colors.
pub const DEFAULT_COLOR: u8 = 15;

/// A model-space position.
#[derive(Clone, Copy, Debug, PartialEq, Eq)]
pub struct Vertex {
    pub x: i64,
    pub y: i64,
    pub z: i64,
}

/// A triangle as three indices into a mesh's vertices.
#[derive(Clone, Copy, Debug, PartialEq, Eq)]
pub struct Face {
    pub a: usize,
    pub b: usize,
    pub c: usize,
}

/// Where a mesh's colors come from.
#[derive(Clone, Debug, PartialEq, Eq)]
pub enum MeshColors {
    /// Every triangle takes `DEFAULT_COLOR`.
    Uniform,
    /// One color per vertex: a triangle takes the color of its first vertex.
    PerVertex(Vec<u8>),
    /// One color per triangle.
    PerFace(Vec<u8>),
}

/// Triangulated geometry with optional colors.
#[derive(Clone, Debug, PartialEq, Eq)]
pub struct Mesh {
    pub vertices: Vec<Vertex>,
    pub faces: Vec<Face>,
    pub colors: MeshColors,
}

impl Vertex {
    pub open spec fn bounded(&self) -> bool {
        &&& -MODEL_LIMIT <= self.x <= MODEL_LIMIT
        &&& -MODEL_LIMIT <= self.y <= MODEL_LIMIT
        &&& -MODEL_LIMIT <= self.z <= MODEL_LIMIT
    }
}

impl Mesh {
    /// Every index names a vertex, every coordinate is within bounds and
    /// there is one color for each vertex or face that the colors speak of.
    pub open spec fn wf(&self) -> bool {
        &&& forall|i: int| 0 <= i < self.vertices@.len() ==> #[trigger] self.vertices@[i].bounded()
        &&& forall|k: int|
            0 <= k < self.faces@.len() ==> {
                let f = #[trigger] self.faces@[k];
                &&& f.a < self.vertices@.len()
                &&& f.b < self.vertices@.len()
                &&& f.c < self.vertices@.len()
            }
        &&& match self.colors {
            MeshColors::Uniform => true,
            MeshColors::PerVertex(c) => c@.len() == self.vertices@.len(),
            MeshColors::PerFace(c) => c@.len() == self.faces@.len(),
        }
    }
}

/// The color that face `k` of `m` is drawn with.
pub open spec fn face_color(m: Mesh, k: int) -> u8 {
    match m.colors {
        MeshColors::Uniform => DEFAULT_COLOR,
        MeshColors::PerVertex(c) => c@[m.faces@[k].a as int],
        MeshColors::PerFace(c) => c@[k],
    }
}

/// One row of an affine transform, in units of `FIXED_ONE`.
#[derive(Clone, Copy, Debug, PartialEq, Eq)]
pub struct Row {
    pub x: i64,
    pub y: i64,
    pub z: i64,
    pub w: i64,
}

/// An affine transform from model space to view space, in fixed point.
#[derive(Clone, Copy, Debug, PartialEq, Eq)]
pub struct Transform {
    pub rx: Row,
    pub ry: Row,
    pub rz: Row,
}

impl Row {
    pub open spec fn bounded(&self) -> bool {
        &&& -MODEL_LIMIT <= self.x <= MODEL_LIMIT
        &&& -MODEL_LIMIT <= self.y <= MODEL_LIMIT
        &&& -MODEL_LIMIT <= self.z <= MODEL_LIMIT
        &&& -MODEL_LIMIT <= self.w <= MODEL_LIMIT
    }
}

impl Transform {
    pub open spec fn wf(&self) -> bool {
        self.rx.bounded() && self.ry.bounded() && self.rz.bounded()
    }

    /// The identity transform.
    pub fn identity() -> (r: Transform)
        ensures
            r.wf(),
            r.rx == (Row { x: FIXED_ONE, y: 0, z: 0, w: 0 }),
            r.ry == (Row { x: 0, y: FIXED_ONE, z: 0, w: 0 }),
            r.rz == (Row { x: 0, y: 0, z: FIXED_ONE, w: 0 }),
    {
        Transform {
            rx: Row { x: FIXED_ONE, y: 0, z: 0, w: 0 },
            ry: Row { x: 0, y: FIXED_ONE, z: 0, w: 0 },
            rz: Row { x: 0, y: 0, z: FIXED_ONE, w: 0 },
        }
    }
}

/// One view-space coordinate of `v`, rounded toward zero.
pub open spec fn apply_row(r: Row, v: Vertex) -> int {
    tdiv(r.x * v.x + r.y * v.y + r.z * v.z + r.w, FIXED_ONE as int)
}

/// Where `v` lands on a screen of `width` by `height` cells: view-space
/// `(0, 0)` at the screen's center, `x` to the right, `y` upward, and the
/// view-space `z` kept as depth.
pub open spec fn project(t: Transform, v: Vertex, width: int, height: int) -> ScreenVertex {
    ScreenVertex {
        x: (apply_row(t.rx, v) + width * SUBCELL / 2) as i64,
        y: (height * SUBCELL / 2 - apply_row(t.ry, v)) as i64,
        z: apply_row(t.rz, v) as i64,
    }
}

/// Face `k` of `m` on the screen.
pub open spec fn screen_triangle(m: Mesh, t: Transform, width: int, height: int, k: int) -> ScreenTriangle {
    let f = m.faces@[k];
    ScreenTriangle {
        a: project(t, m.vertices@[f.a as int], width, height),
        b: project(t, m.vertices@[f.b as int], width, height),
        c: project(t, m.vertices@[f.c as int], width, height),
        color: face_color(m, k),
    }
}

/// All faces of `m` on the screen, in order.
pub open spec fn screen_triangles(m: Mesh, t: Transform, width: int, height: int) -> Seq<ScreenTriangle> {
    Seq::new(m.faces@.len(), |k: int| screen_triangle(m, t, width, height, k))
}

pub fn apply_row_fn(r: Row, v: Vertex) -> (c: i64)
    requires
        r.bounded(),
        v.bounded(),
    ensures
        c == apply_row(r, v),
        -0x1_0000_0000 <= c <= 0x1_0000_0000,
{
    proof {
        let l: int = MODEL_LIMIT as int;
        lemma_mul_bound(r.x as int, v.x as int, l, l);
        lemma_mul_bound(r.y as int, v.y as int, l, l);
        lemma_mul_bound(r.z as int, v.z as int, l, l);
        assert(l * l == 0x100_0000_0000) by (nonlinear_arith)
            requires l == 0x10_0000;
        let n = r.x * v.x + r.y * v.y + r.z * v.z + r.w;
        if n >= 0 {
            assert(n / 1024 <= 0x1_0000_0000) by (nonlinear_arith)
                requires 0 <= n <= 0x400_0000_0000;
        } else {
            assert((-n) / 1024 <= 0x1_0000_0000) by (nonlinear_arith)
                requires 0 < -n <= 0x400_0000_0000;
        }
    }
    (r.x * v.x + r.y * v.y + r.z * v.z + r.w) / FIXED_ONE
}

pub fn project_fn(t: &Transform, v: Vertex, width: usize, height: usize) -> (p: ScreenVertex)
    requires
        t.wf(),
        v.bounded(),
        width <= 65535,
        height <= 65535,
    ensures
        p == project(*t, v, width as int, height as int),
        p.bounded(),
{
    let x = apply_row_fn(t.rx, v);
    let y = apply_row_fn(t.ry, v);
    let z = apply_row_fn(t.rz, v);
    let hw = (width as i64) * SUBCELL / 2;
    let hh = (height as i64) * SUBCELL / 2;
    ScreenVertex { x: x + hw, y: hh - y, z }
}

} // verus!
