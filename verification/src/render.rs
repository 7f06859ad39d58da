//! The tile renderer: from a tile address and a point store to a PNG image.

use vstd::prelude::*;
use vstd::multiset::Multiset;
use crate::geometry::{Point, covered_by};
use crate::color::{Pixel, colorize, shade};
use crate::density::{DensityGrid, bin, density, lemma_count_conservation, lemma_density_of_box,
    total};
use crate::encode::{EncodeError, encode_png, png_encoding, rgba_bytes};
use crate::store::PointStore;
use crate::tiles::{tile_bounds, tile_box};

verus! {

/// The number of pixels along each side of a tile.
pub const TILE_SIZE: u32 = 256;

/// The density grid of a tile: the points per pixel of its footprint.
pub open spec fn tile_density(points: Multiset<Point>, zoom: u32, x: u32, y: u32) -> Seq<nat> {
    density(points, tile_box(zoom, x, y), TILE_SIZE, TILE_SIZE)
}

/// The pixels of a tile.
pub open spec fn tile_pixels(points: Multiset<Point>, zoom: u32, x: u32, y: u32) -> Seq<Pixel> {
    shade(tile_density(points, zoom, x, y))
}

/// Counts the points of the store per pixel of a tile.
pub fn tile_grid(zoom: u32, x: u32, y: u32, store: &PointStore) -> (grid: DensityGrid)
    ensures
        grid.width() == TILE_SIZE,
        grid.height() == TILE_SIZE,
        grid@ == tile_density(store@, zoom, x, y),
        total(grid@) == store@.filter(covered_by(tile_box(zoom, x, y))).len(),
{
    let bbox = tile_bounds(zoom, x, y);
    let points = store.query(&bbox);
    proof {
        lemma_density_of_box(store@, bbox, TILE_SIZE, TILE_SIZE);
        lemma_count_conservation(store@, bbox, TILE_SIZE, TILE_SIZE);
    }
    bin(&points, &bbox, TILE_SIZE, TILE_SIZE)
}

/// Renders a tile: the points of the store in the tile's footprint, counted
/// per pixel, coloured relative to the busiest pixel, as a PNG image.
pub fn render_tile(zoom: u32, x: u32, y: u32, store: &PointStore) -> (tile: Result<
    Vec<u8>,
    EncodeError,
>)
    ensures
        match tile {
            Ok(bytes) => png_encoding(
                TILE_SIZE,
                TILE_SIZE,
                rgba_bytes(tile_pixels(store@, zoom, x, y)),
            ) == Some(bytes@),
            Err(e) => e == EncodeError::Rejected && png_encoding(
                TILE_SIZE,
                TILE_SIZE,
                rgba_bytes(tile_pixels(store@, zoom, x, y)),
            ) is None,
        },
{
    let grid = tile_grid(zoom, x, y, store);
    let pixels = colorize(&grid);
    encode_png(&pixels)
}

} // verus!
