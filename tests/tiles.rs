use walking_coverage::scan::valid_samples;
use walking_coverage::tiles::{Tile, TileGrid};

/// Reads the block of `tile` out of a row-major raster into a buffer of
/// `block_width * block_height` cells, leaving padding cells at `fill`.
fn read_block(cells: &[f32], raster_width: usize, grid: &TileGrid, tile: &Tile, fill: f32) -> Vec<u32> {
    let mut buf = vec![fill.to_bits(); grid.block_width * grid.block_height];
    for r in 0..tile.span_y {
        for c in 0..tile.span_x {
            let v = cells[(tile.offset_y + r) * raster_width + tile.offset_x + c];
            buf[c + r * grid.block_width] = v.to_bits();
        }
    }
    buf
}

fn aggregate(cells: &[f32], grid: &TileGrid, nodata: f32, fill: f32) -> (f64, f32) {
    let mut sum: f64 = 0.0;
    let mut max: f32 = 0.0;
    for tile in grid.tiles() {
        let buf = read_block(cells, grid.raster_width, grid, &tile, fill);
        for bits in valid_samples(&buf, &tile, grid.block_width, nodata.to_bits()) {
            let v = f32::from_bits(bits);
            sum += v as f64;
            max = max.max(v);
        }
    }
    (sum, max)
}

#[test]
fn sum_and_max_skip_the_sentinel() {
    let mut cells = vec![1.0f32; 16];
    cells[0] = -9999.0;
    let grid = TileGrid::new(4, 4, 2, 2);
    let (sum, max) = aggregate(&cells, &grid, -9999.0, 7.0);
    assert_eq!(sum, 15.0);
    assert_eq!(max, 1.0);
}

#[test]
fn padding_cells_are_never_read() {
    let cells: Vec<f32> = (0..15).map(|i| i as f32).collect();
    let grid = TileGrid::new(5, 3, 2, 2);
    let (sum, max) = aggregate(&cells, &grid, -1.0, 1000.0);
    assert_eq!(sum, 105.0);
    assert_eq!(max, 14.0);
}

#[test]
fn all_sentinel_keeps_the_zero_seed() {
    let cells = vec![-9999.0f32; 6];
    let grid = TileGrid::new(3, 2, 2, 2);
    let (sum, max) = aggregate(&cells, &grid, -9999.0, 0.0);
    assert_eq!(sum, 0.0);
    assert_eq!(max, 0.0);
}

#[test]
fn edge_tiles_shrink_on_a_non_square_raster() {
    let grid = TileGrid::new(5, 3, 2, 2);
    assert_eq!(grid.blocks_x(), 3);
    assert_eq!(grid.blocks_y(), 2);
    let tiles = grid.tiles();
    assert_eq!(tiles.len(), 6);
    let spans: Vec<(usize, usize)> = tiles.iter().map(|t| (t.span_x, t.span_y)).collect();
    assert_eq!(spans, vec![(2, 2), (2, 2), (1, 2), (2, 1), (2, 1), (1, 1)]);
    let offsets: Vec<(usize, usize)> = tiles.iter().map(|t| (t.offset_x, t.offset_y)).collect();
    assert_eq!(offsets, vec![(0, 0), (2, 0), (4, 0), (0, 2), (2, 2), (4, 2)]);
    let area: usize = tiles.iter().map(|t| t.span_x * t.span_y).sum();
    assert_eq!(area, 15);
}

#[test]
fn tiles_are_row_major() {
    let grid = TileGrid::new(4, 4, 2, 2);
    let order: Vec<(usize, usize)> = grid.tiles().iter().map(|t| (t.block_x, t.block_y)).collect();
    assert_eq!(order, vec![(0, 0), (1, 0), (0, 1), (1, 1)]);
}

#[test]
fn exact_division_keeps_full_last_tiles() {
    let grid = TileGrid::new(6, 4, 3, 2);
    let t = grid.tile(1, 1);
    assert_eq!(t, Tile { block_x: 1, block_y: 1, offset_x: 3, offset_y: 2, span_x: 3, span_y: 2 });
}

#[test]
fn single_tile_larger_than_raster() {
    let grid = TileGrid::new(3, 2, 256, 256);
    let tiles = grid.tiles();
    assert_eq!(tiles.len(), 1);
    assert_eq!((tiles[0].span_x, tiles[0].span_y), (3, 2));
}

#[test]
fn empty_raster_has_no_tiles() {
    let grid = TileGrid::new(0, 5, 2, 2);
    assert_eq!(grid.blocks_x(), 0);
    assert!(grid.tiles().is_empty());
}

#[test]
fn coverage_holds_for_many_shapes() {
    for w in 1..12usize {
        for h in 1..9usize {
            for bw in 1..5usize {
                for bh in 1..5usize {
                    let grid = TileGrid::new(w, h, bw, bh);
                    let area: usize = grid.tiles().iter().map(|t| t.span_x * t.span_y).sum();
                    assert_eq!(area, w * h);
                }
            }
        }
    }
}

#[test]
fn valid_samples_reads_rows_with_block_stride() {
    let buf: Vec<u32> = vec![1, 2, 3, 4, 5, 6, 7, 8, 9];
    let tile = Tile { block_x: 0, block_y: 0, offset_x: 0, offset_y: 0, span_x: 2, span_y: 2 };
    assert_eq!(valid_samples(&buf, &tile, 3, 5), vec![1, 2, 4]);
    assert_eq!(valid_samples(&buf, &tile, 3, 0), vec![1, 2, 4, 5]);
}

#[test]
fn sentinel_match_is_bit_exact() {
    let buf: Vec<u32> = vec![0.0f32.to_bits(), (-0.0f32).to_bits()];
    let tile = Tile { block_x: 0, block_y: 0, offset_x: 0, offset_y: 0, span_x: 2, span_y: 1 };
    assert_eq!(valid_samples(&buf, &tile, 2, 0.0f32.to_bits()), vec![(-0.0f32).to_bits()]);
}
