use vstd::prelude::*;
use vstd::arithmetic::div_mod::{lemma_fundamental_div_mod, lemma_fundamental_div_mod_converse};
use crate::error::MosaicError;

verus! {

/// `d` is the least divisor of `n` that is at least `start`.
pub open spec fn is_least_divisor_from(n: nat, start: nat, d: nat) -> bool {
    &&& start <= d <= n
    &&& n % d == 0
    &&& forall|k: nat| start <= k < d ==> #[trigger] (n % k) != 0
}

/// Finds the smallest divisor of `n` that is not below `start`; fails when
/// `start` exceeds `n`.
pub fn next_divisor(n: u32, start: u32) -> (r: Result<u32, MosaicError>)
    requires
        start > 0,
    ensures
        r is Err <==> start > n,
        r is Err ==> r == Err::<u32, MosaicError>(MosaicError::InvalidGridRequest),
        r matches Ok(d) ==> is_least_divisor_from(n as nat, start as nat, d as nat),
{
    if start > n {
        return Err(MosaicError::InvalidGridRequest);
    }
    let mut i: u32 = start;
    while i < n
        invariant
            0 < start <= i <= n,
            forall|k: nat| start <= k < i ==> #[trigger] ((n as nat) % k) != 0,
        decreases n - i,
    {
        if n % i == 0 {
            return Ok(i);
        }
        i = i + 1;
    }
    assert((n as nat) % (n as nat) == 0) by (nonlinear_arith)
        requires n > 0;
    Ok(n)
}

/// A grid of `cols` by `rows` equal cells over a `width` by `height` image.
#[derive(Clone, Copy, Debug, PartialEq, Eq, Structural)]
pub struct Grid {
    pub width: u32,
    pub height: u32,
    pub cols: u32,
    pub rows: u32,
}

/// A rectangle of pixels: its top-left corner and its size.
#[derive(Clone, Copy, Debug, PartialEq, Eq, Structural)]
pub struct CellRect {
    pub x: u32,
    pub y: u32,
    pub width: u32,
    pub height: u32,
}

impl CellRect {
    pub open spec fn contains(self, px: int, py: int) -> bool {
        &&& self.x <= px < self.x + self.width
        &&& self.y <= py < self.y + self.height
    }
}

impl Grid {
    /// The counts evenly divide the image's dimensions.
    pub open spec fn wf(self) -> bool {
        &&& self.cols > 0
        &&& self.rows > 0
        &&& self.width % self.cols == 0
        &&& self.height % self.rows == 0
    }

    pub open spec fn cell_w(self) -> nat {
        (self.width / self.cols) as nat
    }

    pub open spec fn cell_h(self) -> nat {
        (self.height / self.rows) as nat
    }

    pub open spec fn cell_count(self) -> nat {
        (self.cols * self.rows) as nat
    }

    /// The cell at row-major index `i`.
    pub open spec fn rect_at(self, i: int) -> CellRect {
        CellRect {
            x: ((i % self.cols as int) * self.cell_w()) as u32,
            y: ((i / self.cols as int) * self.cell_h()) as u32,
            width: self.cell_w() as u32,
            height: self.cell_h() as u32,
        }
    }

    /// The row-major index of the cell holding pixel `(px, py)`.
    pub open spec fn cell_of(self, px: int, py: int) -> int {
        (py / self.cell_h() as int) * self.cols + px / self.cell_w() as int
    }

    /// The width of every cell.
    pub fn cell_width(&self) -> (r: u32)
        requires
            self.wf(),
        ensures
            r == self.cell_w(),
    {
        self.width / self.cols
    }

    /// The height of every cell.
    pub fn cell_height(&self) -> (r: u32)
        requires
            self.wf(),
        ensures
            r == self.cell_h(),
    {
        self.height / self.rows
    }
}

/// Fits the requested column and row counts to the image: each is raised to
/// the least divisor of its dimension that is not below it.
pub fn plan_grid(width: u32, height: u32, requested_cols: u32, requested_rows: u32) -> (r: Result<
    Grid,
    MosaicError,
>)
    requires
        requested_cols > 0,
        requested_rows > 0,
    ensures
        r is Ok <==> (requested_cols <= width && requested_rows <= height),
        r is Err ==> r == Err::<Grid, MosaicError>(MosaicError::InvalidGridRequest),
        r matches Ok(g) ==> {
            &&& g.wf()
            &&& g.width == width
            &&& g.height == height
            &&& is_least_divisor_from(width as nat, requested_cols as nat, g.cols as nat)
            &&& is_least_divisor_from(height as nat, requested_rows as nat, g.rows as nat)
        },
{
    let cols = next_divisor(width, requested_cols)?;
    let rows = next_divisor(height, requested_rows)?;
    Ok(Grid { width, height, cols, rows })
}

pub(crate) proof fn lemma_row_major(cols: int, y: int, x: int)
    requires
        cols > 0,
        0 <= x < cols,
        0 <= y,
    ensures
        (y * cols + x) % cols == x,
        (y * cols + x) / cols == y,
{
    lemma_fundamental_div_mod_converse(y * cols + x, cols, y, x);
}

/// Cuts the grid into its cells, in row-major order.
pub fn cell_rects(grid: &Grid) -> (r: Vec<CellRect>)
    requires
        grid.wf(),
    ensures
        r@.len() == grid.cell_count(),
        forall|i: int| 0 <= i < r@.len() ==> #[trigger] r@[i] == grid.rect_at(i),
{
    let cw = grid.cell_width();
    let ch = grid.cell_height();
    let cols = grid.cols;
    let mut rects: Vec<CellRect> = Vec::new();
    let mut y: u32 = 0;
    while y < grid.rows
        invariant
            grid.wf(),
            cw == grid.cell_w(),
            ch == grid.cell_h(),
            cols == grid.cols,
            y <= grid.rows,
            rects@.len() == y * cols,
            forall|i: int| 0 <= i < rects@.len() ==> #[trigger] rects@[i] == grid.rect_at(i),
        decreases grid.rows - y,
    {
        let mut x: u32 = 0;
        while x < cols
            invariant
                grid.wf(),
                cw == grid.cell_w(),
                ch == grid.cell_h(),
                cols == grid.cols,
                y < grid.rows,
                x <= cols,
                rects@.len() == y * cols + x,
                forall|i: int| 0 <= i < rects@.len() ==> #[trigger] rects@[i] == grid.rect_at(i),
            decreases cols - x,
        {
            proof {
                lemma_row_major(cols as int, y as int, x as int);
                lemma_fundamental_div_mod(grid.width as int, cols as int);
                lemma_fundamental_div_mod(grid.height as int, grid.rows as int);
                assert(x * cw <= cols * cw) by (nonlinear_arith)
                    requires x < cols;
                assert(y * ch <= grid.rows * ch) by (nonlinear_arith)
                    requires y < grid.rows;
            }
            rects.push(CellRect { x: x * cw, y: y * ch, width: cw, height: ch });
            x = x + 1;
        }
        proof {
            assert((y + 1) * cols == y * cols + cols) by (nonlinear_arith);
        }
        y = y + 1;
    }
    proof {
        assert(grid.rows * cols == cols * grid.rows) by (nonlinear_arith);
    }
    rects
}

/// Each pixel of the image lies in exactly one cell of the grid, the one at
/// `cell_of`.
pub proof fn lemma_cells_tile(grid: Grid, px: int, py: int)
    requires
        grid.wf(),
        0 <= px < grid.width,
        0 <= py < grid.height,
    ensures
        0 <= grid.cell_of(px, py) < grid.cell_count(),
        grid.rect_at(grid.cell_of(px, py)).contains(px, py),
        forall|j: int|
            0 <= j < grid.cell_count() && (#[trigger] grid.rect_at(j)).contains(px, py) ==> j
                == grid.cell_of(px, py),
{
    let cols = grid.cols as int;
    let rows = grid.rows as int;
    let cw = grid.cell_w() as int;
    let ch = grid.cell_h() as int;
    lemma_fundamental_div_mod(grid.width as int, cols);
    lemma_fundamental_div_mod(grid.height as int, rows);
    assert(cw > 0) by (nonlinear_arith)
        requires grid.width == cols * cw, grid.width > 0, cols > 0, cw >= 0;
    assert(ch > 0) by (nonlinear_arith)
        requires grid.height == rows * ch, grid.height > 0, rows > 0, ch >= 0;
    let gx = px / cw;
    let gy = py / ch;
    lemma_fundamental_div_mod(px, cw);
    lemma_fundamental_div_mod(py, ch);
    assert(gx < cols) by (nonlinear_arith)
        requires px == cw * gx + px % cw, px % cw >= 0, px < cols * cw, cw > 0;
    assert(gy < rows) by (nonlinear_arith)
        requires py == ch * gy + py % ch, py % ch >= 0, py < rows * ch, ch > 0;
    assert(gx >= 0 && gy >= 0) by (nonlinear_arith)
        requires px >= 0, py >= 0, cw > 0, ch > 0, gx == px / cw, gy == py / ch;
    let i = gy * cols + gx;
    lemma_row_major(cols, gy, gx);
    assert(gy * cols + cols <= rows * cols) by (nonlinear_arith)
        requires gy + 1 <= rows, cols > 0;
    assert(grid.cell_count() == rows * cols) by (nonlinear_arith)
        requires grid.cell_count() == cols * rows;
    assert(i * 1 == i);
    assert(gx * cw + cw <= grid.width) by (nonlinear_arith)
        requires gx < cols, grid.width == cols * cw, cw > 0;
    assert(gy * ch + ch <= grid.height) by (nonlinear_arith)
        requires gy < rows, grid.height == rows * ch, ch > 0;
    assert(grid.rect_at(i).contains(px, py));
    assert forall|j: int|
        0 <= j < grid.cell_count() && (#[trigger] grid.rect_at(j)).contains(px, py) implies j
            == i by {
        let jx = j % cols;
        let jy = j / cols;
        lemma_fundamental_div_mod(j, cols);
        assert(0 <= jx < cols);
        assert(jy >= 0) by (nonlinear_arith)
            requires j >= 0, cols > 0, jy == j / cols;
        assert(jy < rows) by (nonlinear_arith)
            requires j == cols * jy + jx, 0 <= jx, j < cols * rows, cols > 0;
        assert(jx * cw <= grid.width) by (nonlinear_arith)
            requires jx < cols, grid.width == cols * cw, cw > 0;
        assert(jy * ch <= grid.height) by (nonlinear_arith)
            requires jy < rows, grid.height == rows * ch, ch > 0;
        lemma_fundamental_div_mod_converse(px, cw, jx, px - jx * cw);
        lemma_fundamental_div_mod_converse(py, ch, jy, py - jy * ch);
        assert(j == jy * cols + jx) by (nonlinear_arith)
            requires j == cols * jy + jx;
    }
}

/// Every cell of a grid has the same size and lies inside the image.
pub proof fn lemma_cell_inside(grid: Grid, i: int)
    requires
        grid.wf(),
        0 <= i < grid.cell_count(),
    ensures
        grid.rect_at(i).width == grid.cell_w(),
        grid.rect_at(i).height == grid.cell_h(),
        grid.rect_at(i).x + grid.cell_w() <= grid.width,
        grid.rect_at(i).y + grid.cell_h() <= grid.height,
{
    let cols = grid.cols as int;
    let rows = grid.rows as int;
    let cw = grid.cell_w() as int;
    let ch = grid.cell_h() as int;
    lemma_fundamental_div_mod(grid.width as int, cols);
    lemma_fundamental_div_mod(grid.height as int, rows);
    lemma_fundamental_div_mod(i, cols);
    let jx = i % cols;
    let jy = i / cols;
    assert(jy >= 0) by (nonlinear_arith)
        requires i >= 0, cols > 0, jy == i / cols;
    assert(jy < rows) by (nonlinear_arith)
        requires i == cols * jy + jx, 0 <= jx, i < cols * rows, cols > 0;
    assert(jx * cw + cw <= grid.width) by (nonlinear_arith)
        requires jx < cols, grid.width == cols * cw, cw >= 0;
    assert(jy * ch + ch <= grid.height) by (nonlinear_arith)
        requires jy < rows, grid.height == rows * ch, ch >= 0;
    assert(jx * cw >= 0 && jy * ch >= 0) by (nonlinear_arith)
        requires jx >= 0, jy >= 0, cw >= 0, ch >= 0;
}

} // verus!
