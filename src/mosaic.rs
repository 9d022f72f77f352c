use vstd::prelude::*;
use vstd::arithmetic::div_mod::lemma_fundamental_div_mod;
use crate::color::{BlendFactor, Color, blend, blended};
use crate::error::MosaicError;
use crate::grid::{Grid, lemma_cells_tile, lemma_row_major};
use crate::raster::{Filter, Raster, lemma_index_bound, resample, resampled};

verus! {

/// Every pixel of `pixels` blended toward `dominant` by `alpha`.
pub open spec fn tinted(pixels: Seq<Color>, dominant: Color, alpha: BlendFactor) -> Seq<Color> {
    Seq::new(pixels.len(), |k: int| blended(pixels[k], dominant, alpha))
}

/// Blends every pixel of `tile` toward `dominant` by `alpha`.
pub fn tint(tile: &Raster, dominant: Color, alpha: BlendFactor) -> (r: Raster)
    requires
        tile.wf(),
        alpha.wf(),
    ensures
        r.wf(),
        r.width == tile.width,
        r.height == tile.height,
        r.pixels@ == tinted(tile.pixels@, dominant, alpha),
{
    let mut out: Vec<Color> = Vec::new();
    let n = tile.pixels.len();
    let mut k: usize = 0;
    while k < n
        invariant
            tile.wf(),
            alpha.wf(),
            n == tile.pixels@.len(),
            k <= n,
            out@ == tinted(tile.pixels@, dominant, alpha).take(k as int),
        decreases n - k,
    {
        out.push(blend(tile.pixels[k], dominant, alpha));
        k = k + 1;
        proof {
            assert(out@ =~= tinted(tile.pixels@, dominant, alpha).take(k as int));
        }
    }
    proof {
        assert(out@ =~= tinted(tile.pixels@, dominant, alpha));
    }
    Raster { width: tile.width, height: tile.height, pixels: out }
}

/// Makes the tile of one cell: candidate `draw % pool.len()` of the pool,
/// resampled to the cell's size and blended toward the cell's dominant color.
/// Fails when the pool is empty.
pub fn render_cell(
    pool: &Vec<Raster>,
    draw: usize,
    cell_width: u32,
    cell_height: u32,
    dominant: Color,
    alpha: BlendFactor,
) -> (r: Result<Raster, MosaicError>)
    requires
        alpha.wf(),
        cell_width * cell_height * 4 <= usize::MAX,
        forall|i: int|
            0 <= i < pool@.len() ==> (#[trigger] pool@[i]).wf() && pool@[i].width * cell_height
                * 4 <= usize::MAX,
    ensures
        r is Err <==> pool@.len() == 0,
        r is Err ==> r == Err::<Raster, MosaicError>(MosaicError::EmptyCandidatePool),
        r matches Ok(t) ==> {
            let src = pool@[(draw as int) % (pool@.len() as int)];
            &&& t.wf()
            &&& t.width == cell_width
            &&& t.height == cell_height
            &&& t.pixels@ == tinted(
                resampled(
                    src.pixels@,
                    src.width as nat,
                    src.height as nat,
                    cell_width as nat,
                    cell_height as nat,
                    Filter::Lanczos3,
                ),
                dominant,
                alpha,
            )
        },
{
    if pool.len() == 0 {
        return Err(MosaicError::EmptyCandidatePool);
    }
    let candidate = &pool[draw % pool.len()];
    let resized = resample(candidate, cell_width, cell_height, Filter::Lanczos3);
    Ok(tint(&resized, dominant, alpha))
}

/// The pixel `(px, py)` of the mosaic made of `tiles`, one per cell of `grid`
/// in row-major order: the matching pixel of its cell's tile.
pub open spec fn mosaic_pixel(grid: Grid, tiles: Seq<Raster>, px: int, py: int) -> Color {
    tiles[grid.cell_of(px, py)].pixel(px % (grid.cell_w() as int), py % (grid.cell_h() as int))
}

/// `tiles` holds one image of the cell size for each cell of `grid`.
pub open spec fn tiles_fit(grid: Grid, tiles: Seq<Raster>) -> bool {
    &&& tiles.len() == grid.cell_count()
    &&& forall|i: int|
        0 <= i < tiles.len() ==> (#[trigger] tiles[i]).wf() && tiles[i].width == grid.cell_w()
            && tiles[i].height == grid.cell_h()
}

/// Places each tile on its cell of the grid, giving the finished mosaic.
pub fn assemble(grid: &Grid, tiles: &Vec<Raster>) -> (r: Raster)
    requires
        grid.wf(),
        grid.width * grid.height * 4 <= usize::MAX,
        tiles_fit(*grid, tiles@),
    ensures
        r.wf(),
        r.width == grid.width,
        r.height == grid.height,
        forall|px: int, py: int|
            0 <= px < grid.width && 0 <= py < grid.height ==> #[trigger] r.pixel(px, py)
                == mosaic_pixel(*grid, tiles@, px, py),
{
    let w = grid.width;
    let h = grid.height;
    let cw = grid.cell_width();
    let ch = grid.cell_height();
    let cols = grid.cols;
    let ntiles: usize = tiles.len();
    let mut out: Vec<Color> = Vec::new();
    let mut py: u32 = 0;
    while py < h
        invariant
            grid.wf(),
            tiles_fit(*grid, tiles@),
            w == grid.width,
            h == grid.height,
            cw == grid.cell_w(),
            ch == grid.cell_h(),
            cols == grid.cols,
            ntiles == tiles@.len(),
            py <= h,
            out@.len() == py * w,
            forall|k: int|
                0 <= k < out@.len() ==> #[trigger] out@[k] == mosaic_pixel(
                    *grid,
                    tiles@,
                    k % (w as int),
                    k / (w as int),
                ),
        decreases h - py,
    {
        let mut px: u32 = 0;
        while px < w
            invariant
                grid.wf(),
                tiles_fit(*grid, tiles@),
                w == grid.width,
                h == grid.height,
                cw == grid.cell_w(),
                ch == grid.cell_h(),
                cols == grid.cols,
                ntiles == tiles@.len(),
                py < h,
                px <= w,
                out@.len() == py * w + px,
                forall|k: int|
                    0 <= k < out@.len() ==> #[trigger] out@[k] == mosaic_pixel(
                        *grid,
                        tiles@,
                        k % (w as int),
                        k / (w as int),
                    ),
            decreases w - px,
        {
            proof {
                lemma_row_major(w as int, py as int, px as int);
                lemma_cells_tile(*grid, px as int, py as int);
                lemma_fundamental_div_mod(w as int, cols as int);
                lemma_fundamental_div_mod(h as int, grid.rows as int);
                assert(cw > 0 && ch > 0) by (nonlinear_arith)
                    requires
                        0 <= px < w,
                        0 <= py < h,
                        w == cols * cw,
                        h == grid.rows * ch,
                        cw >= 0,
                        ch >= 0,
                        cols > 0,
                        grid.rows > 0,
                {
                }
            }
            let gx: u32 = px / cw;
            let gy: u32 = py / ch;
            proof {
                assert(gy * cols + gx == grid.cell_of(px as int, py as int));
                assert(gy * cols + gx < tiles@.len());
                assert(gy * cols <= gy * cols + gx);
            }
            let i: usize = gy as usize * cols as usize + gx as usize;
            let tile = &tiles[i];
            let c = tile.get_pixel(px % cw, py % ch);
            out.push(c);
            px = px + 1;
        }
        proof {
            assert((py + 1) * w == py * w + w) by (nonlinear_arith);
        }
        py = py + 1;
    }
    proof {
        assert(h * w == w * h) by (nonlinear_arith);
    }
    let r = Raster { width: w, height: h, pixels: out };
    proof {
        assert forall|px: int, py: int|
            0 <= px < grid.width && 0 <= py < grid.height implies #[trigger] r.pixel(px, py)
                == mosaic_pixel(*grid, tiles@, px, py) by {
            lemma_row_major(w as int, py, px);
            lemma_index_bound(w as int, h as int, px, py);
        }
    }
    r
}

/// The pixels of a cell of the mosaic depend on that cell's tile alone: two
/// sets of tiles that agree on cell `i` give the same pixels over cell `i`,
/// however the other tiles were made.
pub proof fn lemma_cell_owns_region(
    grid: Grid,
    tiles1: Seq<Raster>,
    tiles2: Seq<Raster>,
    i: int,
    px: int,
    py: int,
)
    requires
        grid.wf(),
        tiles_fit(grid, tiles1),
        tiles_fit(grid, tiles2),
        0 <= i < grid.cell_count(),
        tiles1[i] == tiles2[i],
        grid.rect_at(i).contains(px, py),
        0 <= px < grid.width,
        0 <= py < grid.height,
    ensures
        mosaic_pixel(grid, tiles1, px, py) == mosaic_pixel(grid, tiles2, px, py),
{
    lemma_cells_tile(grid, px, py);
}

} // verus!
