//! Reading the valid cells of one tile out of a block buffer, and masking the
//! sentinel ("no data") value.
//!
//! Samples are single-precision floats held as their stored bit patterns: a
//! cell is a sentinel when its bits equal the sentinel's bits exactly.

use vstd::prelude::*;
use crate::tiles::{lemma_cell_in_one_tile, Tile, TileGrid};

verus! {

/// The samples of the valid span of a tile, row by row, read from a block
/// buffer in which the cell in column `c` and row `r` of the block stands at
/// `c + r * block_width`.
pub open spec fn tile_samples(buf: Seq<u32>, block_width: int, span_x: int, span_y: int) -> Seq<
    u32,
> {
    Seq::new((span_x * span_y) as nat, |k: int| buf[k % span_x + (k / span_x) * block_width])
}

/// The samples of `s` that differ from `nodata`, in their order.
pub open spec fn without_sentinel(s: Seq<u32>, nodata: u32) -> Seq<u32>
    decreases s.len(),
{
    if s.len() == 0 {
        s
    } else if s.last() == nodata {
        without_sentinel(s.drop_last(), nodata)
    } else {
        without_sentinel(s.drop_last(), nodata).push(s.last())
    }
}

/// A sample is kept exactly when it is no sentinel.
pub proof fn lemma_without_sentinel_members(s: Seq<u32>, nodata: u32, v: u32)
    ensures
        without_sentinel(s, nodata).contains(v) <==> (v != nodata && s.contains(v)),
    decreases s.len(),
{
    if s.len() > 0 {
        lemma_without_sentinel_members(s.drop_last(), nodata, v);
        let p = s.drop_last();
        if s.contains(v) {
            let i = choose|i: int| 0 <= i < s.len() && s[i] == v;
            if i < s.len() - 1 {
                assert(p[i] == v);
            }
        }
        if p.contains(v) {
            let i = choose|i: int| 0 <= i < p.len() && p[i] == v;
            assert(s[i] == v);
        }
        if s.last() != nodata {
            let w = without_sentinel(p, nodata).push(s.last());
            if w.contains(v) {
                let i = choose|i: int| 0 <= i < w.len() && w[i] == v;
                if i < w.len() - 1 {
                    assert(without_sentinel(p, nodata)[i] == v);
                }
            }
            if without_sentinel(p, nodata).contains(v) {
                let i = choose|i: int|
                    0 <= i < without_sentinel(p, nodata).len() && without_sentinel(p, nodata)[i]
                        == v;
                assert(w[i] == v);
            }
            if v == s.last() {
                assert(w[w.len() - 1] == v);
            }
        }
    }
}

/// The non-sentinel samples of the valid span of `tile`, row by row, from a
/// block buffer of `block_width` columns. Cells of the buffer outside the
/// valid span are never read.
pub fn valid_samples(buf: &Vec<u32>, tile: &Tile, block_width: usize, nodata: u32) -> (r: Vec<u32>)
    requires
        tile.span_x <= block_width,
        tile.span_y * block_width <= buf@.len(),
    ensures
        r@ == without_sentinel(
            tile_samples(buf@, block_width as int, tile.span_x as int, tile.span_y as int),
            nodata,
        ),
{
    let sx = tile.span_x;
    let sy = tile.span_y;
    let ghost all = tile_samples(buf@, block_width as int, sx as int, sy as int);
    let mut out: Vec<u32> = Vec::new();
    let mut iy: usize = 0;
    while iy < sy
        invariant
            sx == tile.span_x,
            sy == tile.span_y,
            sx <= block_width,
            sy * block_width <= buf@.len(),
            all == tile_samples(buf@, block_width as int, sx as int, sy as int),
            iy <= sy,
            out@ == without_sentinel(all.take(iy * sx), nodata),
        decreases sy - iy,
    {
        let mut ix: usize = 0;
        while ix < sx
            invariant
                sx == tile.span_x,
                sy == tile.span_y,
                sx <= block_width,
                sy * block_width <= buf@.len(),
                all == tile_samples(buf@, block_width as int, sx as int, sy as int),
                iy < sy,
                ix <= sx,
                out@ == without_sentinel(all.take(iy * sx + ix), nodata),
            decreases sx - ix,
        {
            let len = buf.len();
            proof {
                assert(ix + iy * block_width < (iy + 1) * block_width) by (nonlinear_arith)
                    requires
                        ix < sx,
                        sx <= block_width,
                ;
                assert((iy + 1) * block_width <= sy * block_width) by (nonlinear_arith)
                    requires
                        iy < sy,
                ;
                assert(iy * block_width <= ix + iy * block_width);
                assert(ix + iy * block_width < len);
                assert(iy * sx + ix < sy * sx) by (nonlinear_arith)
                    requires
                        iy < sy,
                        ix < sx,
                ;
            }
            let value = buf[ix + iy * block_width];
            proof {
                let k = iy * sx + ix;
                vstd::arithmetic::div_mod::lemma_fundamental_div_mod_converse(
                    k as int,
                    sx as int,
                    iy as int,
                    ix as int,
                );
                assert(sy * sx == sx * sy) by (nonlinear_arith);
                assert(all[k as int] == value);
                assert(all.take(k + 1).drop_last() =~= all.take(k as int));
                assert(all.take(k + 1).last() == value);
            }
            if value != nodata {
                out.push(value);
            }
            ix = ix + 1;
        }
        proof {
            assert((iy + 1) * sx == iy * sx + sx) by (nonlinear_arith);
        }
        iy = iy + 1;
    }
    proof {
        assert(sy * sx == sx * sy) by (nonlinear_arith);
        assert(all.take(sy * sx) =~= all);
    }
    out
}


/// The block buffer holds the valid span of `tile` of a row-major raster of
/// `raster_width` columns.
pub open spec fn holds_tile(
    buf: Seq<u32>,
    block_width: int,
    cells: Seq<u32>,
    raster_width: int,
    tile: Tile,
) -> bool {
    forall|c: int, r: int|
        0 <= c < tile.span_x && 0 <= r < tile.span_y ==> #[trigger] buf[c + r * block_width]
            == cells[(tile.offset_y + r) * raster_width + tile.offset_x + c]
}

/// The raster cells in the valid span of `tile`, row by row.
pub open spec fn raster_tile_cells(cells: Seq<u32>, raster_width: int, tile: Tile) -> Seq<u32> {
    let sx = tile.span_x as int;
    Seq::new(
        (tile.span_x * tile.span_y) as nat,
        |k: int| cells[(tile.offset_y + k / sx) * raster_width + tile.offset_x + k % sx],
    )
}

/// Scanning a block buffer that holds a tile reads exactly the raster cells of
/// the tile's valid span, in row-major order; and the raster cell at column
/// `tile.offset_x + c` and row `tile.offset_y + r` is read at `c + r * span_x`.
pub proof fn lemma_scan_reads_raster(
    buf: Seq<u32>,
    block_width: int,
    cells: Seq<u32>,
    raster_width: int,
    tile: Tile,
    c: int,
    r: int,
)
    requires
        holds_tile(buf, block_width, cells, raster_width, tile),
    ensures
        tile_samples(buf, block_width, tile.span_x as int, tile.span_y as int) == raster_tile_cells(
            cells,
            raster_width,
            tile,
        ),
        0 <= c < tile.span_x && 0 <= r < tile.span_y ==> c + r * tile.span_x < tile.span_x
            * tile.span_y && raster_tile_cells(cells, raster_width, tile)[c + r * tile.span_x]
            == cells[(tile.offset_y + r) * raster_width + tile.offset_x + c],
{
    let sx = tile.span_x as int;
    let sy = tile.span_y as int;
    let a = tile_samples(buf, block_width, sx, sy);
    let b = raster_tile_cells(cells, raster_width, tile);
    assert forall|k: int| 0 <= k < a.len() implies a[k] == b[k] by {
        assert(0 <= k % sx < sx && k == (k / sx) * sx + k % sx) by {
            vstd::arithmetic::div_mod::lemma_fundamental_div_mod(k, sx);
        }
        assert(0 <= k / sx < sy) by {
            vstd::arithmetic::div_mod::lemma_div_pos_is_pos(k, sx);
            if k / sx >= sy {
                assert((k / sx) * sx >= sy * sx) by (nonlinear_arith)
                    requires
                        k / sx >= sy,
                        sx > 0,
                ;
                assert(sy * sx == sx * sy) by (nonlinear_arith);
            }
        }
        assert(buf[k % sx + (k / sx) * block_width] == cells[(tile.offset_y + k / sx) * raster_width
            + tile.offset_x + k % sx]);
    }
    assert(a =~= b);
    if 0 <= c < sx && 0 <= r < sy {
        assert(c + r * sx < sx * sy) by (nonlinear_arith)
            requires
                0 <= c < sx,
                0 <= r < sy,
        ;
        vstd::arithmetic::div_mod::lemma_fundamental_div_mod_converse(c + r * sx, sx, r, c);
    }
}


/// Over the whole scan every raster cell is read exactly once: it lies in the
/// valid span of exactly one tile; a block buffer that holds that tile yields
/// the cell at one position of the tile's scan; and the cell is kept exactly
/// when it is no sentinel.
pub proof fn lemma_cell_scanned_once(
    grid: TileGrid,
    cells: Seq<u32>,
    buf: Seq<u32>,
    nodata: u32,
    x: int,
    y: int,
    ix: int,
    iy: int,
)
    requires
        grid.wf(),
        0 <= x < grid.raster_width,
        0 <= y < grid.raster_height,
        holds_tile(
            buf,
            grid.block_width as int,
            cells,
            grid.raster_width as int,
            grid.spec_tile(x / (grid.block_width as int), y / (grid.block_height as int)),
        ),
    ensures
        ({
            let t = grid.spec_tile(x / (grid.block_width as int), y / (grid.block_height as int));
            let scanned = tile_samples(buf, grid.block_width as int, t.span_x as int, t.span_y as int);
            let k = (x - t.offset_x) + (y - t.offset_y) * t.span_x;
            &&& 0 <= k < scanned.len()
            &&& scanned[k] == cells[y * grid.raster_width + x]
            &&& without_sentinel(scanned, nodata).contains(cells[y * grid.raster_width + x])
                <== cells[y * grid.raster_width + x] != nodata
        }),
        ({
            let t = grid.spec_tile(ix, iy);
            0 <= ix < grid.spec_blocks_x() && 0 <= iy < grid.spec_blocks_y() && t.offset_x <= x
                < t.offset_x + t.span_x && t.offset_y <= y < t.offset_y + t.span_y
        }) ==> ix == x / (grid.block_width as int) && iy == y / (grid.block_height as int),
{
    lemma_cell_in_one_tile(grid, x, y, ix, iy);
    let w = grid.raster_width as int;
    let t = grid.spec_tile(x / (grid.block_width as int), y / (grid.block_height as int));
    let c = x - t.offset_x;
    let r = y - t.offset_y;
    lemma_scan_reads_raster(buf, grid.block_width as int, cells, w, t, c, r);
    assert((t.offset_y + r) * w + t.offset_x + c == y * w + x) by (nonlinear_arith)
        requires
            r == y - t.offset_y,
            c == x - t.offset_x,
    ;
    let scanned = tile_samples(buf, grid.block_width as int, t.span_x as int, t.span_y as int);
    let k = c + r * t.span_x;
    assert(scanned[k] == cells[y * w + x]);
    assert(scanned.contains(cells[y * w + x]));
    lemma_without_sentinel_members(scanned, nodata, cells[y * w + x]);
}

} // verus!
