//! The tile grid that covers a raster: how many blocks lie along each axis,
//! where each block starts and how much of it holds raster cells.

use vstd::prelude::*;

verus! {

/// Number of blocks of `block` cells needed to cover `extent` cells.
pub open spec fn axis_count(extent: int, block: int) -> int {
    extent / block + if extent % block == 0 { 0int } else { 1int }
}

/// First cell of block `i` along one axis.
pub open spec fn axis_offset(block: int, i: int) -> int {
    i * block
}

/// Cells of block `i` that lie inside the raster: the full block, except on
/// the last block, which keeps only what is left of the extent.
pub open spec fn axis_span(extent: int, block: int, i: int) -> int {
    if i == axis_count(extent, block) - 1 {
        extent - i * block
    } else {
        block
    }
}

/// Sum of the valid spans of the first `n` blocks along one axis.
pub open spec fn axis_span_sum(extent: int, block: int, n: nat) -> int
    decreases n,
{
    if n == 0 {
        0
    } else {
        axis_span_sum(extent, block, (n - 1) as nat) + axis_span(extent, block, n - 1)
    }
}

/// Each block along an axis starts inside the extent, and its valid span is
/// positive, at most one block, and ends inside the extent.
pub proof fn lemma_axis_block(extent: int, block: int, i: int)
    requires
        0 < block,
        0 <= extent,
        0 <= i < axis_count(extent, block),
    ensures
        axis_offset(block, i) < extent,
        0 < axis_span(extent, block, i) <= block,
        axis_offset(block, i) + axis_span(extent, block, i) <= extent,
        i < axis_count(extent, block) - 1 ==> axis_span(extent, block, i) == block,
{
    let q = extent / block;
    let r = extent % block;
    assert(extent == q * block + r && 0 <= r < block) by {
        vstd::arithmetic::div_mod::lemma_fundamental_div_mod(extent, block);
    }
    if i < q {
        assert(i * block + block <= q * block) by (nonlinear_arith)
            requires
                i < q,
                0 < block,
        ;
        assert((q - 1) * block + block == q * block) by (nonlinear_arith);
    } else {
        assert(i == q && r != 0);
        assert(i * block == q * block);
    }
}

/// The valid spans of the blocks before the last add up to whole blocks, and
/// those of all blocks add up to the extent.
pub proof fn lemma_axis_span_sum(extent: int, block: int, n: nat)
    requires
        0 < block,
        0 <= extent,
        n <= axis_count(extent, block),
    ensures
        n < axis_count(extent, block) ==> axis_span_sum(extent, block, n) == n * block,
        n == axis_count(extent, block) ==> axis_span_sum(extent, block, n) == extent,
    decreases n,
{
    if n > 0 {
        lemma_axis_span_sum(extent, block, (n - 1) as nat);
        lemma_axis_block(extent, block, n - 1);
        assert((n - 1) * block + block == n * block) by (nonlinear_arith);
    } else {
        let q = extent / block;
        let r = extent % block;
        assert(extent == q * block + r && 0 <= r < block) by {
            vstd::arithmetic::div_mod::lemma_fundamental_div_mod(extent, block);
        }
        if extent > 0 {
            assert(q > 0 || r > 0) by (nonlinear_arith)
                requires
                    extent == q * block + r,
                    extent > 0,
                    q >= 0,
            ;
            assert(q >= 0) by {
                vstd::arithmetic::div_mod::lemma_div_pos_is_pos(extent, block);
            }
        }
    }
}

/// Every cell along an axis lies in exactly one block's valid span: the block
/// `x / block`.
pub proof fn lemma_axis_cell(extent: int, block: int, x: int, i: int)
    requires
        0 < block,
        0 <= x < extent,
    ensures
        0 <= x / block < axis_count(extent, block),
        axis_offset(block, x / block) <= x < axis_offset(block, x / block) + axis_span(
            extent,
            block,
            x / block,
        ),
        0 <= i < axis_count(extent, block) && axis_offset(block, i) <= x < axis_offset(block, i)
            + axis_span(extent, block, i) ==> i == x / block,
{
    let j = x / block;
    let s = x % block;
    assert(x == j * block + s && 0 <= s < block) by {
        vstd::arithmetic::div_mod::lemma_fundamental_div_mod(x, block);
    }
    assert(j >= 0) by {
        vstd::arithmetic::div_mod::lemma_div_pos_is_pos(x, block);
    }
    assert(j <= extent / block) by {
        vstd::arithmetic::div_mod::lemma_div_is_ordered(x, extent, block);
    }
    let q = extent / block;
    let r = extent % block;
    assert(extent == q * block + r && 0 <= r < block) by {
        vstd::arithmetic::div_mod::lemma_fundamental_div_mod(extent, block);
    }
    if j == q {
        assert(r != 0) by (nonlinear_arith)
            requires
                x == j * block + s,
                extent == q * block + r,
                j == q,
                x < extent,
                s >= 0,
        ;
    }
    lemma_axis_block(extent, block, j);
    if 0 <= i < axis_count(extent, block) && axis_offset(block, i) <= x < axis_offset(block, i)
        + axis_span(extent, block, i) {
        lemma_axis_block(extent, block, i);
        assert(x == i * block + (x - i * block) && 0 <= x - i * block < block);
        vstd::arithmetic::div_mod::lemma_fundamental_div_mod_converse(x, block, i, x - i * block);
    }
}

/// A block of the grid: its position among the blocks, the raster cell at
/// which it starts, and how many of its columns and rows lie inside the
/// raster.
#[derive(Clone, Copy, Debug, PartialEq, Eq)]
pub struct Tile {
    pub block_x: usize,
    pub block_y: usize,
    pub offset_x: usize,
    pub offset_y: usize,
    pub span_x: usize,
    pub span_y: usize,
}

/// A raster of `raster_width` by `raster_height` cells, stored in blocks of
/// `block_width` by `block_height` cells.
#[derive(Clone, Copy, Debug, PartialEq, Eq)]
pub struct TileGrid {
    pub raster_width: usize,
    pub raster_height: usize,
    pub block_width: usize,
    pub block_height: usize,
}

/// Sum of the valid areas of a sequence of tiles.
pub open spec fn total_area(tiles: Seq<Tile>) -> int
    decreases tiles.len(),
{
    if tiles.len() == 0 {
        0
    } else {
        total_area(tiles.drop_last()) + tiles.last().span_x * tiles.last().span_y
    }
}

impl TileGrid {
    /// Blocks must have a size.
    pub open spec fn wf(&self) -> bool {
        self.block_width > 0 && self.block_height > 0
    }

    pub open spec fn spec_blocks_x(&self) -> int {
        axis_count(self.raster_width as int, self.block_width as int)
    }

    pub open spec fn spec_blocks_y(&self) -> int {
        axis_count(self.raster_height as int, self.block_height as int)
    }

    /// The tile in block column `ix` and block row `iy`.
    pub open spec fn spec_tile(&self, ix: int, iy: int) -> Tile {
        Tile {
            block_x: ix as usize,
            block_y: iy as usize,
            offset_x: axis_offset(self.block_width as int, ix) as usize,
            offset_y: axis_offset(self.block_height as int, iy) as usize,
            span_x: axis_span(self.raster_width as int, self.block_width as int, ix) as usize,
            span_y: axis_span(self.raster_height as int, self.block_height as int, iy) as usize,
        }
    }

    /// Sum of the valid areas of all tiles in the first `rows` block rows.
    pub open spec fn rows_area(&self, rows: nat) -> int
        decreases rows,
    {
        if rows == 0 {
            0
        } else {
            self.rows_area((rows - 1) as nat) + axis_span_sum(
                self.raster_width as int,
                self.block_width as int,
                self.spec_blocks_x() as nat,
            ) * axis_span(self.raster_height as int, self.block_height as int, rows - 1)
        }
    }

    pub fn new(
        raster_width: usize,
        raster_height: usize,
        block_width: usize,
        block_height: usize,
    ) -> (r: TileGrid)
        requires
            block_width > 0,
            block_height > 0,
        ensures
            r.wf(),
            r == (TileGrid { raster_width, raster_height, block_width, block_height }),
    {
        TileGrid { raster_width, raster_height, block_width, block_height }
    }

    /// Number of block columns: the raster width divided by the block width,
    /// rounded up.
    pub fn blocks_x(&self) -> (r: usize)
        requires
            self.wf(),
        ensures
            r == self.spec_blocks_x(),
    {
        let q = self.raster_width / self.block_width;
        if self.raster_width % self.block_width == 0 {
            q
        } else {
            assert(q < self.raster_width) by (nonlinear_arith)
                requires
                    q == self.raster_width / self.block_width,
                    self.raster_width % self.block_width != 0,
                    self.block_width > 0,
            {
                vstd::arithmetic::div_mod::lemma_fundamental_div_mod(
                    self.raster_width as int,
                    self.block_width as int,
                );
            }
            q + 1
        }
    }

    /// Number of block rows: the raster height divided by the block height,
    /// rounded up.
    pub fn blocks_y(&self) -> (r: usize)
        requires
            self.wf(),
        ensures
            r == self.spec_blocks_y(),
    {
        let q = self.raster_height / self.block_height;
        if self.raster_height % self.block_height == 0 {
            q
        } else {
            assert(q < self.raster_height) by (nonlinear_arith)
                requires
                    q == self.raster_height / self.block_height,
                    self.raster_height % self.block_height != 0,
                    self.block_height > 0,
            {
                vstd::arithmetic::div_mod::lemma_fundamental_div_mod(
                    self.raster_height as int,
                    self.block_height as int,
                );
            }
            q + 1
        }
    }

    /// The tile in block column `ix` and block row `iy`, with its offset and
    /// its valid span.
    pub fn tile(&self, ix: usize, iy: usize) -> (r: Tile)
        requires
            self.wf(),
            ix < self.spec_blocks_x(),
            iy < self.spec_blocks_y(),
        ensures
            r == self.spec_tile(ix as int, iy as int),
            0 < r.span_x <= self.block_width,
            0 < r.span_y <= self.block_height,
            r.offset_x + r.span_x <= self.raster_width,
            r.offset_y + r.span_y <= self.raster_height,
    {
        proof {
            lemma_axis_block(self.raster_width as int, self.block_width as int, ix as int);
            lemma_axis_block(self.raster_height as int, self.block_height as int, iy as int);
        }
        let nx = self.blocks_x();
        let ny = self.blocks_y();
        let offset_x = ix * self.block_width;
        let offset_y = iy * self.block_height;
        let span_x = if ix == nx - 1 {
            self.raster_width - offset_x
        } else {
            self.block_width
        };
        let span_y = if iy == ny - 1 {
            self.raster_height - offset_y
        } else {
            self.block_height
        };
        Tile { block_x: ix, block_y: iy, offset_x, offset_y, span_x, span_y }
    }
}


/// The areas of the block rows add up to the width of the raster times the
/// valid heights of those rows.
pub proof fn lemma_rows_area(grid: TileGrid, rows: nat)
    requires
        grid.wf(),
    ensures
        grid.rows_area(rows) == grid.raster_width * axis_span_sum(
            grid.raster_height as int,
            grid.block_height as int,
            rows,
        ),
    decreases rows,
{
    lemma_axis_span_sum(
        grid.raster_width as int,
        grid.block_width as int,
        grid.spec_blocks_x() as nat,
    );
    if rows > 0 {
        lemma_rows_area(grid, (rows - 1) as nat);
        let w = grid.raster_width as int;
        let a = axis_span_sum(grid.raster_height as int, grid.block_height as int, (rows - 1) as nat);
        let b = axis_span(grid.raster_height as int, grid.block_height as int, rows - 1);
        assert(w * a + w * b == w * (a + b)) by (nonlinear_arith);
    }
}

/// Tile coverage is exact: over all tiles of the grid, block row by block
/// row, the valid areas add up to the area of the raster.
pub proof fn lemma_tile_coverage(grid: TileGrid)
    requires
        grid.wf(),
    ensures
        grid.rows_area(grid.spec_blocks_y() as nat) == grid.raster_width * grid.raster_height,
{
    lemma_rows_area(grid, grid.spec_blocks_y() as nat);
    lemma_axis_span_sum(
        grid.raster_height as int,
        grid.block_height as int,
        grid.spec_blocks_y() as nat,
    );
}

/// Every raster cell lies in the valid span of exactly one tile: the one in
/// block column `x / block_width` and block row `y / block_height`.
pub proof fn lemma_cell_in_one_tile(grid: TileGrid, x: int, y: int, ix: int, iy: int)
    requires
        grid.wf(),
        0 <= x < grid.raster_width,
        0 <= y < grid.raster_height,
    ensures
        ({
            let t = grid.spec_tile(x / (grid.block_width as int), y / (grid.block_height as int));
            &&& 0 <= x / (grid.block_width as int) < grid.spec_blocks_x()
            &&& 0 <= y / (grid.block_height as int) < grid.spec_blocks_y()
            &&& t.offset_x <= x < t.offset_x + t.span_x
            &&& t.offset_y <= y < t.offset_y + t.span_y
        }),
        ({
            let t = grid.spec_tile(ix, iy);
            0 <= ix < grid.spec_blocks_x() && 0 <= iy < grid.spec_blocks_y() && t.offset_x <= x
                < t.offset_x + t.span_x && t.offset_y <= y < t.offset_y + t.span_y
        }) ==> ix == x / (grid.block_width as int) && iy == y / (grid.block_height as int),
{
    let (w, bw, h, bh) = (
        grid.raster_width as int,
        grid.block_width as int,
        grid.raster_height as int,
        grid.block_height as int,
    );
    lemma_axis_cell(w, bw, x, ix);
    lemma_axis_cell(h, bh, y, iy);
    lemma_axis_block(w, bw, x / bw);
    lemma_axis_block(h, bh, y / bh);
    if 0 <= ix < grid.spec_blocks_x() {
        lemma_axis_block(w, bw, ix);
    }
    if 0 <= iy < grid.spec_blocks_y() {
        lemma_axis_block(h, bh, iy);
    }
}

impl TileGrid {
    /// All tiles of the grid in row-major order: block rows outer, block
    /// columns inner. Their valid areas add up to the area of the raster.
    pub fn tiles(&self) -> (r: Vec<Tile>)
        requires
            self.wf(),
        ensures
            r@.len() == self.spec_blocks_x() * self.spec_blocks_y(),
            forall|k: int|
                0 <= k < r@.len() ==> #[trigger] r@[k] == self.spec_tile(
                    k % self.spec_blocks_x(),
                    k / self.spec_blocks_x(),
                ),
            total_area(r@) == self.raster_width * self.raster_height,
    {
        let nx = self.blocks_x();
        let ny = self.blocks_y();
        let mut out: Vec<Tile> = Vec::new();
        let ghost sum_x = axis_span_sum(
            self.raster_width as int,
            self.block_width as int,
            nx as nat,
        );
        let mut iy: usize = 0;
        while iy < ny
            invariant
                self.wf(),
                nx == self.spec_blocks_x(),
                ny == self.spec_blocks_y(),
                sum_x == axis_span_sum(self.raster_width as int, self.block_width as int, nx as nat),
                iy <= ny,
                out@.len() == iy * nx,
                forall|k: int|
                    0 <= k < out@.len() ==> #[trigger] out@[k] == self.spec_tile(k % nx as int, k / nx as int),
                total_area(out@) == self.rows_area(iy as nat),
            decreases ny - iy,
        {
            let mut ix: usize = 0;
            while ix < nx
                invariant
                    self.wf(),
                    nx == self.spec_blocks_x(),
                    ny == self.spec_blocks_y(),
                    sum_x == axis_span_sum(self.raster_width as int, self.block_width as int, nx as nat),
                    iy < ny,
                    ix <= nx,
                    out@.len() == iy * nx + ix,
                    forall|k: int|
                        0 <= k < out@.len() ==> #[trigger] out@[k] == self.spec_tile(
                            k % nx as int,
                            k / nx as int,
                        ),
                    total_area(out@) == self.rows_area(iy as nat) + axis_span_sum(
                        self.raster_width as int,
                        self.block_width as int,
                        ix as nat,
                    ) * axis_span(self.raster_height as int, self.block_height as int, iy as int),
                decreases nx - ix,
            {
                let t = self.tile(ix, iy);
                let ghost before = out@;
                out.push(t);
                proof {
                    let k = iy * nx + ix;
                    vstd::arithmetic::div_mod::lemma_fundamental_div_mod_converse(
                        k as int,
                        nx as int,
                        iy as int,
                        ix as int,
                    );
                    assert(out@.drop_last() =~= before);
                    let a = axis_span_sum(self.raster_width as int, self.block_width as int, ix as nat);
                    let sx = axis_span(self.raster_width as int, self.block_width as int, ix as int);
                    let sy = axis_span(self.raster_height as int, self.block_height as int, iy as int);
                    assert(total_area(out@) == total_area(before) + t.span_x * t.span_y);
                    lemma_axis_block(self.raster_width as int, self.block_width as int, ix as int);
                    lemma_axis_block(self.raster_height as int, self.block_height as int, iy as int);
                    assert(t.span_x == sx && t.span_y == sy);
                    assert(axis_span_sum(
                        self.raster_width as int,
                        self.block_width as int,
                        (ix + 1) as nat,
                    ) == a + sx);
                    assert(a * sy + sx * sy == (a + sx) * sy) by (nonlinear_arith);
                    assert(iy * nx + ix + 1 == iy * nx + (ix + 1));
                }
                ix = ix + 1;
            }
            proof {
                assert((iy + 1) * nx == iy * nx + nx) by (nonlinear_arith);
            }
            iy = iy + 1;
        }
        proof {
            assert(ny * nx == nx * ny) by (nonlinear_arith);
            lemma_tile_coverage(*self);
        }
        out
    }
}

} // verus!
