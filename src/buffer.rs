use vstd::prelude::*;

verus! {

/// Largest terminal dimension, in cells, along either axis.
pub const MAX_DIM: usize = 65535;

/// Depth of a cell on which nothing has been drawn yet.
pub const FAR_DEPTH: i64 = 0x7fff_ffff_ffff_ffff;

/// Color of a cell on which nothing has been drawn yet.
pub const BACKGROUND: u8 = 0;

/// Linear, row-major index of the cell in column `x` and row `y`.
pub open spec fn cell_index(width: int, x: int, y: int) -> int {
    y * width + x
}

/// The frame buffer and depth buffer, both sized to the terminal.
pub struct Context {
    pub width: usize,
    pub height: usize,
    pub frame: Vec<u8>,
    pub depth: Vec<i64>,
}

pub proof fn lemma_cell_index_bounds(width: int, height: int, x: int, y: int)
    requires
        0 <= x < width,
        0 <= y < height,
    ensures
        0 <= cell_index(width, x, y) < width * height,
{
    assert(0 <= y * width + x < width * height) by (nonlinear_arith)
        requires 0 <= x < width, 0 <= y < height;
}

pub proof fn lemma_cell_index_injective(width: int, x1: int, y1: int, x2: int, y2: int)
    requires
        0 <= x1 < width,
        0 <= x2 < width,
        0 <= y1,
        0 <= y2,
        cell_index(width, x1, y1) == cell_index(width, x2, y2),
    ensures
        x1 == x2 && y1 == y2,
{
    if y1 < y2 {
        assert(y1 * width + width <= y2 * width) by (nonlinear_arith)
            requires y1 < y2, 0 < width;
    } else if y2 < y1 {
        assert(y2 * width + width <= y1 * width) by (nonlinear_arith)
            requires y2 < y1, 0 < width;
    }
}

/// The linear index of the cell in column `x` and row `y` of a grid of
/// `width` columns and `height` rows.
pub fn index_of(width: usize, height: usize, x: usize, y: usize) -> (r: usize)
    requires
        width <= MAX_DIM,
        height <= MAX_DIM,
        x < width,
        y < height,
    ensures
        r == cell_index(width as int, x as int, y as int),
        r < width * height,
{
    proof {
        lemma_cell_index_bounds(width as int, height as int, x as int, y as int);
        assert(y * width <= 65535 * 65535) by (nonlinear_arith)
            requires y < 65535, width <= 65535;
    }
    y * width + x
}

impl Context {
    /// The buffers hold one cell for each column and row.
    pub open spec fn wf(&self) -> bool {
        &&& self.width <= MAX_DIM
        &&& self.height <= MAX_DIM
        &&& self.frame@.len() == self.width * self.height
        &&& self.depth@.len() == self.width * self.height
    }

    /// Every cell holds the background color and the far depth.
    pub open spec fn is_clear(&self) -> bool {
        &&& forall|i: int| 0 <= i < self.frame@.len() ==> self.frame@[i] == BACKGROUND
        &&& forall|i: int| 0 <= i < self.depth@.len() ==> self.depth@[i] == FAR_DEPTH
    }

    /// A context of zero cells.
    pub fn blank() -> (r: Context)
        ensures
            r.wf(),
            r.width == 0,
            r.height == 0,
    {
        Context { width: 0, height: 0, frame: Vec::new(), depth: Vec::new() }
    }

    /// A cleared context of `width` columns and `height` rows.
    pub fn new(width: u16, height: u16) -> (r: Context)
        ensures
            r.wf(),
            r.width == width,
            r.height == height,
            r.is_clear(),
    {
        let w = width as usize;
        let h = height as usize;
        assert(w * h <= 65535 * 65535) by (nonlinear_arith)
            requires w <= 65535, h <= 65535;
        let n: usize = w * h;
        let mut frame: Vec<u8> = Vec::with_capacity(n);
        let mut depth: Vec<i64> = Vec::with_capacity(n);
        let mut i: usize = 0;
        while i < n
            invariant
                i <= n,
                frame@.len() == i,
                depth@.len() == i,
                forall|j: int| 0 <= j < i ==> frame@[j] == BACKGROUND,
                forall|j: int| 0 <= j < i ==> depth@[j] == FAR_DEPTH,
            decreases n - i,
        {
            frame.push(BACKGROUND);
            depth.push(FAR_DEPTH);
            i = i + 1;
        }
        Context { width: w, height: h, frame, depth }
    }

    /// Rebuilds the buffers when the terminal size differs from theirs.
    pub fn resize_if_needed(&mut self, width: u16, height: u16)
        requires
            old(self).wf(),
        ensures
            final(self).wf(),
            final(self).width == width,
            final(self).height == height,
            (old(self).width != width || old(self).height != height) ==> final(self).is_clear(),
            (old(self).width == width && old(self).height == height) ==> *final(self) == *old(self),
    {
        if self.width != width as usize || self.height != height as usize {
            *self = Context::new(width, height);
        }
    }

    /// Resets every cell to the background color and the far depth.
    pub fn clear(&mut self)
        requires
            old(self).wf(),
        ensures
            final(self).wf(),
            final(self).width == old(self).width,
            final(self).height == old(self).height,
            final(self).is_clear(),
    {
        let n = self.frame.len();
        let mut i: usize = 0;
        while i < n
            invariant
                self.wf(),
                self.width == old(self).width,
                self.height == old(self).height,
                n == self.frame@.len(),
                i <= n,
                forall|j: int| 0 <= j < i ==> self.frame@[j] == BACKGROUND,
                forall|j: int| 0 <= j < i ==> self.depth@[j] == FAR_DEPTH,
            decreases n - i,
        {
            self.frame.set(i, BACKGROUND);
            self.depth.set(i, FAR_DEPTH);
            i = i + 1;
        }
    }

    /// Number of columns.
    pub fn width(&self) -> (r: usize)
        ensures
            r == self.width,
    {
        self.width
    }

    /// Number of rows.
    pub fn height(&self) -> (r: usize)
        ensures
            r == self.height,
    {
        self.height
    }

    /// The color of the cell in column `x` and row `y`.
    pub fn color_at(&self, x: usize, y: usize) -> (r: u8)
        requires
            self.wf(),
            x < self.width,
            y < self.height,
        ensures
            r == self.frame@[cell_index(self.width as int, x as int, y as int)],
    {
        self.frame[index_of(self.width, self.height, x, y)]
    }

    /// The depth of the cell in column `x` and row `y`.
    pub fn depth_at(&self, x: usize, y: usize) -> (r: i64)
        requires
            self.wf(),
            x < self.width,
            y < self.height,
        ensures
            r == self.depth@[cell_index(self.width as int, x as int, y as int)],
    {
        self.depth[index_of(self.width, self.height, x, y)]
    }
}

} // verus!
