//! Tiled reduction over large rasters and the coordinate checks that locate
//! a geographic point in a raster: the tile grid with its exact coverage, the
//! scan of one block buffer with sentinel masking, and north-up and
//! bounding-box tests on the affine transform.

use vstd::prelude::*;

pub mod geo;
pub mod scan;
pub mod tiles;

verus! {

} // verus!
