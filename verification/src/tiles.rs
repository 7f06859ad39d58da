//! Slippy-map tile addresses and their footprints on the projected plane.
//!
//! # World units
//!
//! The Web-Mercator plane is the square `[-pi*R, pi*R]^2` metres with
//! `R = 6378137`. This crate lays it on the integer square
//! `[-2^29, 2^29]^2`: one world unit is `2*pi*R / 2^30` metres, a little
//! under four centimetres.
//!
//! In exact arithmetic the slippy-map formula puts the top-left corner of
//! tile `(x, y)` at zoom `z` on `((2x/n - 1) * pi*R, (1 - 2y/n) * pi*R)` with
//! `n = 2^z`, since `ln(tan(pi/4 + atan(sinh(t))/2)) = t`. In world units
//! that is `(x * 2^30/n - 2^29, 2^29 - y * 2^30/n)`. Up to [`MAX_ZOOM`] this
//! is an integer. Beyond it the quotient `x * 2^30/n` is rounded down, which
//! moves the corner by less than one unit, to the west and to the north.
//!
//! A position given in metres comes to world units by scaling with
//! `2^29 / (pi*R)`. A pixel owns its left and its top edge, so the easting is
//! best rounded down and the northing up: as long as a pixel is at least one
//! unit wide, which it is up to zoom 22, the point then stays in the pixel
//! that the exact position falls into.

use vstd::prelude::*;
use vstd::arithmetic::power2::{pow2, lemma2_to64, lemma_pow2_adds, lemma_pow2_pos,
    lemma_pow2_strictly_increases, lemma_pow2_subtracts, lemma_pow2_unfold};
use vstd::arithmetic::div_mod::{lemma_basic_div, lemma_div_basics, lemma_div_by_multiple,
    lemma_div_is_ordered, lemma_div_is_ordered_by_denominator, lemma_div_multiples_vanish,
    lemma_div_multiples_vanish_quotient, lemma_div_pos_is_pos, lemma_fundamental_div_mod,
    lemma_mod_bound};
use vstd::bits::lemma_u64_shr_is_div;
use crate::geometry::{Point, BoundingBox};

verus! {

/// Half the side of the world square, in world units: `2^29`.
pub const WORLD_HALF: i64 = 536_870_912;

/// The side of the world square, in world units: `2^30`.
pub const WORLD_SIZE: i64 = 1_073_741_824;

/// The deepest zoom level at which a tile is at least one world unit wide.
/// Beyond it a tile is one unit wide or has no width at all.
pub const MAX_ZOOM: u32 = 30;

/// How far the left edge of column `tile` lies east of the world's west
/// edge, and the top edge of row `tile` south of its north edge: the share
/// `tile / 2^zoom` of the world's side, rounded down.
pub open spec fn tile_edge(zoom: u32, tile: int) -> int {
    (tile * WORLD_SIZE) / pow2(zoom as nat) as int
}

/// The top-left corner of tile `(xtile, ytile)`: columns run east from the
/// world's west edge, rows run south from its north edge.
pub open spec fn tile_corner(zoom: u32, xtile: int, ytile: int) -> (int, int) {
    (tile_edge(zoom, xtile) - WORLD_HALF, WORLD_HALF - tile_edge(zoom, ytile))
}

/// The footprint of tile `(x, y)`: from its own top-left corner to the
/// top-left corner of tile `(x + 1, y + 1)`.
pub open spec fn tile_box(zoom: u32, x: u32, y: u32) -> BoundingBox {
    let (left, top) = tile_corner(zoom, x as int, y as int);
    let (right, bottom) = tile_corner(zoom, x + 1, y + 1);
    BoundingBox { xmin: left as i64, ymin: bottom as i64, xmax: right as i64, ymax: top as i64 }
}

/// The side of a tile up to [`MAX_ZOOM`], in world units: `2^(30 - zoom)`.
/// Beyond [`MAX_ZOOM`] it is zero, and the tiles are no longer all alike.
pub open spec fn tile_span(zoom: u32) -> int {
    WORLD_SIZE as int / pow2(zoom as nat) as int
}

/// The tile that shows a point, up to [`MAX_ZOOM`]: the inverse of
/// [`tile_corner`].
pub open spec fn tile_at(zoom: u32, px: int, py: int) -> (int, int) {
    ((px + WORLD_HALF) / tile_span(zoom), (WORLD_HALF - py) / tile_span(zoom))
}

/// Up to [`MAX_ZOOM`] a tile's side is the power of two `2^(30 - zoom)`,
/// and `2^zoom` such sides make up the world's side.
pub proof fn lemma_tile_span(zoom: u32)
    ensures
        zoom <= MAX_ZOOM ==> tile_span(zoom) == pow2((MAX_ZOOM - zoom) as nat) >= 1,
        zoom <= MAX_ZOOM ==> tile_span(zoom) * pow2(zoom as nat) == WORLD_SIZE,
        zoom > MAX_ZOOM ==> tile_span(zoom) == 0,
        0 <= tile_span(zoom) <= WORLD_SIZE,
{
    let size = WORLD_SIZE as int;
    let parts = pow2(zoom as nat) as int;
    lemma2_to64();
    lemma_pow2_pos(zoom as nat);
    if zoom <= MAX_ZOOM {
        lemma_pow2_subtracts(zoom as nat, 30);
        lemma_pow2_adds((30 - zoom) as nat, zoom as nat);
    } else {
        lemma_pow2_strictly_increases(30, zoom as nat);
        lemma_basic_div(size, parts);
    }
    lemma_div_pos_is_pos(size, parts);
    lemma_div_is_ordered_by_denominator(size, 1, parts);
}

/// An edge never lies west or north of the world's own edge, nor further
/// from it than its column or row times the world's side.
pub proof fn lemma_tile_edge_range(zoom: u32, tile: int)
    requires
        0 <= tile,
    ensures
        0 <= tile_edge(zoom, tile) <= tile * WORLD_SIZE,
{
    let scaled = tile * WORLD_SIZE;
    let parts = pow2(zoom as nat) as int;
    lemma_pow2_pos(zoom as nat);
    lemma_div_pos_is_pos(scaled, parts);
    lemma_div_is_ordered_by_denominator(scaled, 1, parts);
    lemma_div_basics(scaled);
}

/// Edges come in the order of their columns or rows.
pub proof fn lemma_tile_edge_ordered(zoom: u32, lower: int, higher: int)
    requires
        lower <= higher,
    ensures
        tile_edge(zoom, lower) <= tile_edge(zoom, higher),
{
    lemma_pow2_pos(zoom as nat);
    lemma_div_is_ordered(lower * WORLD_SIZE, higher * WORLD_SIZE, pow2(zoom as nat) as int);
}

/// Up to [`MAX_ZOOM`] the edges lie on a grid: column or row `tile` starts
/// `tile` whole tile sides from the world's edge, and nothing is rounded.
pub proof fn lemma_tile_edge_on_grid(zoom: u32, tile: int)
    requires
        zoom <= MAX_ZOOM,
    ensures
        tile_edge(zoom, tile) == tile * tile_span(zoom),
{
    let span = tile_span(zoom);
    let parts = pow2(zoom as nat) as int;
    lemma_tile_span(zoom);
    lemma_pow2_pos(zoom as nat);
    assert(tile * WORLD_SIZE == parts * (tile * span)) by (nonlinear_arith)
        requires
            span * parts == WORLD_SIZE,
    ;
    lemma_div_multiples_vanish(tile * span, parts);
}

/// The corners of every tile fit the coordinates of a [`Point`], whatever
/// the address.
pub proof fn lemma_corner_fits(zoom: u32, xtile: int, ytile: int)
    requires
        0 <= xtile <= 0x1_0000_0000,
        0 <= ytile <= 0x1_0000_0000,
    ensures
        -WORLD_HALF <= tile_corner(zoom, xtile, ytile).0 <= 0x4000_0000_0000_0000,
        -0x4000_0000_0000_0000 <= tile_corner(zoom, xtile, ytile).1 <= WORLD_HALF,
{
    lemma_tile_edge_range(zoom, xtile);
    lemma_tile_edge_range(zoom, ytile);
}

/// A tile and its top-left child at the next zoom level share their
/// top-left corner, at every level of the pyramid.
pub proof fn lemma_child_shares_corner(zoom: u32, xtile: int, ytile: int)
    requires
        zoom < u32::MAX,
        0 <= xtile,
        0 <= ytile,
    ensures
        tile_corner((zoom + 1) as u32, 2 * xtile, 2 * ytile) == tile_corner(zoom, xtile, ytile),
{
    let parts = pow2(zoom as nat) as int;
    lemma_pow2_pos(zoom as nat);
    lemma_pow2_unfold((zoom + 1) as nat);
    lemma_div_multiples_vanish_quotient(2, xtile * WORLD_SIZE, parts);
    lemma_div_multiples_vanish_quotient(2, ytile * WORLD_SIZE, parts);
}

/// Every tile has a footprint whose corners are in order, and up to
/// [`MAX_ZOOM`] one of positive width and height.
pub proof fn lemma_tile_box_ordered(zoom: u32, x: u32, y: u32)
    ensures
        tile_box(zoom, x, y).xmin <= tile_box(zoom, x, y).xmax,
        tile_box(zoom, x, y).ymin <= tile_box(zoom, x, y).ymax,
        zoom <= MAX_ZOOM ==> tile_box(zoom, x, y).xmin < tile_box(zoom, x, y).xmax,
        zoom <= MAX_ZOOM ==> tile_box(zoom, x, y).ymin < tile_box(zoom, x, y).ymax,
{
    lemma_corner_fits(zoom, x as int, y as int);
    lemma_corner_fits(zoom, x + 1, y + 1);
    lemma_tile_edge_ordered(zoom, x as int, x + 1);
    lemma_tile_edge_ordered(zoom, y as int, y + 1);
    if zoom <= MAX_ZOOM {
        lemma_tile_box_on_grid(zoom, x, y);
        lemma_tile_span(zoom);
    }
}

/// Up to [`MAX_ZOOM`] a tile's footprint is a square of one tile side.
pub proof fn lemma_tile_box_on_grid(zoom: u32, x: u32, y: u32)
    requires
        zoom <= MAX_ZOOM,
    ensures
        tile_box(zoom, x, y).xmin == x * tile_span(zoom) - WORLD_HALF,
        tile_box(zoom, x, y).xmax == tile_box(zoom, x, y).xmin + tile_span(zoom),
        tile_box(zoom, x, y).ymax == WORLD_HALF - y * tile_span(zoom),
        tile_box(zoom, x, y).ymin == tile_box(zoom, x, y).ymax - tile_span(zoom),
{
    let span = tile_span(zoom);
    lemma_corner_fits(zoom, x as int, y as int);
    lemma_corner_fits(zoom, x + 1, y + 1);
    lemma_tile_edge_on_grid(zoom, x as int);
    lemma_tile_edge_on_grid(zoom, x + 1);
    lemma_tile_edge_on_grid(zoom, y as int);
    lemma_tile_edge_on_grid(zoom, y + 1);
    assert((x + 1) * span == x * span + span) by (nonlinear_arith);
    assert((y + 1) * span == y * span + span) by (nonlinear_arith);
}

/// Up to [`MAX_ZOOM`] the corner of a tile lies in that tile: mapping a tile
/// address to its corner and the corner back to its tile is the identity.
pub proof fn lemma_corner_round_trip(zoom: u32, xtile: u32, ytile: u32)
    requires
        zoom <= MAX_ZOOM,
    ensures
        ({
            let (px, py) = tile_corner(zoom, xtile as int, ytile as int);
            tile_at(zoom, px, py) == (xtile as int, ytile as int)
        }),
{
    lemma_tile_span(zoom);
    let span = tile_span(zoom);
    lemma_tile_edge_on_grid(zoom, xtile as int);
    lemma_tile_edge_on_grid(zoom, ytile as int);
    lemma_div_by_multiple(xtile as int, span);
    lemma_div_by_multiple(ytile as int, span);
}

/// Up to [`MAX_ZOOM`] the tiles of a zoom level partition the plane: a tile
/// covers a point exactly if it is the tile that [`tile_at`] gives for it.
pub proof fn lemma_tile_at_covers(zoom: u32, x: u32, y: u32, p: Point)
    requires
        zoom <= MAX_ZOOM,
    ensures
        tile_box(zoom, x, y).covers(p) <==> tile_at(zoom, p.x as int, p.y as int) == (
            x as int,
            y as int,
        ),
{
    lemma_tile_span(zoom);
    lemma_tile_box_on_grid(zoom, x, y);
    let span = tile_span(zoom);
    lemma_quotient_is(p.x + WORLD_HALF, span, x as int);
    lemma_quotient_is(WORLD_HALF - p.y, span, y as int);
}

/// Rounded-down division by a positive number gives `q` exactly for the
/// numbers from `q * d` up to, but not including, `(q + 1) * d`.
proof fn lemma_quotient_is(a: int, d: int, q: int)
    requires
        d > 0,
    ensures
        a / d == q <==> q * d <= a < q * d + d,
{
    lemma_fundamental_div_mod(a, d);
    lemma_mod_bound(a, d);
    let k = a / d;
    assert(d * k == k * d) by (nonlinear_arith);
    if k < q {
        assert(k * d + d <= q * d) by (nonlinear_arith)
            requires
                k + 1 <= q,
                d > 0,
        ;
    } else if k > q {
        assert(q * d + d <= k * d) by (nonlinear_arith)
            requires
                q + 1 <= k,
                d > 0,
        ;
    }
}

/// The distance of an edge from the world's west or north edge.
fn edge_of(zoom: u32, tile: u64) -> (edge: i64)
    requires
        tile <= 0x1_0000_0000,
    ensures
        edge == tile_edge(zoom, tile as int),
        0 <= edge <= 0x4000_0000_0000_0000,
{
    proof {
        lemma_tile_edge_range(zoom, tile as int);
    }
    let scaled: u64 = tile * 1_073_741_824;
    if zoom >= 64 {
        proof {
            lemma2_to64();
            if zoom > 64 {
                lemma_pow2_strictly_increases(64, zoom as nat);
            }
            lemma_basic_div(scaled as int, pow2(zoom as nat) as int);
        }
        0
    } else {
        let shift: u64 = zoom as u64;
        proof {
            lemma_u64_shr_is_div(scaled, shift);
        }
        (scaled >> shift) as i64
    }
}

/// The top-left corner of a tile on the projected plane.
///
/// The tile address is not checked against the zoom level.
pub fn tile_to_projected(zoom: u32, xtile: u32, ytile: u32) -> (corner: Point)
    ensures
        (corner.x as int, corner.y as int) == tile_corner(zoom, xtile as int, ytile as int),
{
    Point {
        x: edge_of(zoom, xtile as u64) - WORLD_HALF,
        y: WORLD_HALF - edge_of(zoom, ytile as u64),
    }
}

/// The footprint of a tile on the projected plane.
///
/// The tile address is not checked against the zoom level: a column or row
/// beyond `2^zoom` gives a box outside the world square. Beyond
/// [`MAX_ZOOM`] a tile is narrower than a world unit, and its box, with the
/// corners rounded to whole units, is one unit wide or has no width, and
/// likewise for its height.
pub fn tile_bounds(zoom: u32, x: u32, y: u32) -> (bbox: BoundingBox)
    ensures
        bbox == tile_box(zoom, x, y),
        (bbox.xmin as int, bbox.ymax as int) == tile_corner(zoom, x as int, y as int),
        (bbox.xmax as int, bbox.ymin as int) == tile_corner(zoom, x + 1, y + 1),
        bbox.xmin <= bbox.xmax,
        bbox.ymin <= bbox.ymax,
        zoom <= MAX_ZOOM ==> bbox.xmin < bbox.xmax && bbox.ymin < bbox.ymax,
{
    proof {
        lemma_tile_box_ordered(zoom, x, y);
        lemma_corner_fits(zoom, x as int, y as int);
        lemma_corner_fits(zoom, x + 1, y + 1);
    }
    BoundingBox {
        xmin: edge_of(zoom, x as u64) - WORLD_HALF,
        ymin: WORLD_HALF - edge_of(zoom, y as u64 + 1),
        xmax: edge_of(zoom, x as u64 + 1) - WORLD_HALF,
        ymax: WORLD_HALF - edge_of(zoom, y as u64),
    }
}

} // verus!
