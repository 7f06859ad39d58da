//! The colorizer: from counts to pixels, relative to the busiest cell.

use vstd::prelude::*;
use vstd::multiset::Multiset;
use vstd::arithmetic::div_mod::lemma_div_is_ordered;
use crate::geometry::{Point, BoundingBox};
use crate::counting::lemma_filter_none;
use crate::density::{DensityGrid, density, lands_in, lemma_all_zero, lemma_cell_of_covered, max_of};

verus! {

/// A pixel with eight bits for each of red, green, blue and opacity.
#[derive(Clone, Copy, Debug, PartialEq, Eq, Structural)]
pub struct Pixel {
    pub red: u8,
    pub green: u8,
    pub blue: u8,
    pub alpha: u8,
}

/// The pixel of a cell without data: black and fully transparent.
pub open spec fn transparent() -> Pixel {
    Pixel { red: 0, green: 0, blue: 0, alpha: 0 }
}

/// The red channel for a count: `255 * count / max_count` rounded to the
/// nearest integer, halves rounded up, and never above 255.
pub open spec fn red_level(count: nat, max_count: nat) -> int {
    let rounded = (510 * (count as int) + (max_count as int)) / (2 * (max_count as int));
    if rounded > 255 {
        255
    } else {
        rounded
    }
}

/// The pixel for a count in a grid whose largest count is `max_count`.
///
/// A cell without points is transparent, and so is every cell of a grid
/// without points. Any other cell is opaque, on a line from blue for the
/// sparsest cells to red for the busiest one.
pub open spec fn color_of(count: nat, max_count: nat) -> Pixel {
    if count == 0 || max_count == 0 {
        transparent()
    } else {
        Pixel {
            red: red_level(count, max_count) as u8,
            green: 0,
            blue: (255 - red_level(count, max_count)) as u8,
            alpha: 255,
        }
    }
}

/// The pixels of a grid of counts, cell by cell.
pub open spec fn shade(counts: Seq<nat>) -> Seq<Pixel> {
    Seq::new(counts.len(), |k: int| color_of(counts[k], max_of(counts)))
}

/// The red channel lies between 0 and 255, and reaches 255 on the largest
/// count.
pub proof fn lemma_red_level_range(count: nat, max_count: nat)
    requires
        max_count > 0,
    ensures
        0 <= red_level(count, max_count) <= 255,
        count >= max_count ==> red_level(count, max_count) == 255,
{
    let den = 2 * (max_count as int);
    let num = 510 * (count as int) + (max_count as int);
    vstd::arithmetic::div_mod::lemma_div_pos_is_pos(num, den);
    if count >= max_count {
        lemma_div_is_ordered(255 * den, num, den);
        vstd::arithmetic::div_mod::lemma_div_by_multiple(255, den);
    }
}

/// Of two cells of one grid, the one with more points is at least as red.
pub proof fn lemma_red_monotonic(lower: nat, higher: nat, max_count: nat)
    requires
        lower <= higher,
    ensures
        color_of(lower, max_count).red <= color_of(higher, max_count).red,
{
    if max_count > 0 && lower > 0 {
        lemma_red_level_range(lower, max_count);
        lemma_red_level_range(higher, max_count);
        lemma_div_is_ordered(
            510 * (lower as int) + (max_count as int),
            510 * (higher as int) + (max_count as int),
            2 * (max_count as int),
        );
    }
}

/// Maps a count to its pixel, given the largest count of the grid.
pub fn color_map(count: u32, max_count: u32) -> (pixel: Pixel)
    ensures
        pixel == color_of(count as nat, max_count as nat),
{
    if count == 0 || max_count == 0 {
        return Pixel { red: 0, green: 0, blue: 0, alpha: 0 };
    }
    proof {
        lemma_red_level_range(count as nat, max_count as nat);
    }
    let rounded: u64 = (510 * (count as u64) + (max_count as u64)) / (2 * (max_count as u64));
    let red: u8 = if rounded > 255 {
        255
    } else {
        rounded as u8
    };
    Pixel { red, green: 0, blue: 255 - red, alpha: 255 }
}

/// A raster of pixels, stored row by row from the top.
pub struct PixelGrid {
    width: u32,
    height: u32,
    pixels: Vec<Pixel>,
}

impl PixelGrid {
    #[verifier::type_invariant]
    spec fn well_formed(self) -> bool {
        self.pixels@.len() == self.width * self.height
    }

    /// The pixels, row by row: pixel `(col, row)` stands at index
    /// `row * width + col`.
    pub closed spec fn view(&self) -> Seq<Pixel> {
        self.pixels@
    }

    /// The number of columns.
    pub closed spec fn spec_width(&self) -> u32 {
        self.width
    }

    /// The number of rows.
    pub closed spec fn spec_height(&self) -> u32 {
        self.height
    }

    /// The number of columns.
    #[verifier::when_used_as_spec(spec_width)]
    pub fn width(&self) -> (width: u32)
        ensures
            width == self.spec_width(),
    {
        self.width
    }

    /// The number of rows.
    #[verifier::when_used_as_spec(spec_height)]
    pub fn height(&self) -> (height: u32)
        ensures
            height == self.spec_height(),
    {
        self.height
    }

    /// The pixels, row by row.
    pub fn pixels(&self) -> (pixels: &Vec<Pixel>)
        ensures
            pixels@ == self@,
            pixels@.len() == self.width() * self.height(),
    {
        proof {
            use_type_invariant(self);
        }
        &self.pixels
    }

    /// The pixel at `(col, row)`, if the grid has such a pixel.
    pub fn pixel(&self, col: u32, row: u32) -> (pixel: Option<Pixel>)
        ensures
            match pixel {
                Some(pixel) => col < self.width() && row < self.height() && pixel
                    == self@[row * self.width() + col],
                None => col >= self.width() || row >= self.height(),
            },
    {
        proof {
            use_type_invariant(self);
        }
        let cells = self.pixels.len();
        if col < self.width && row < self.height {
            proof {
                crate::density::lemma_cell_index(self.width, self.height, col as int, row as int);
                assert(0 <= row * self.width) by (nonlinear_arith);
                assert(cells == self.width * self.height);
            }
            let index: usize = (row as usize) * (self.width as usize) + (col as usize);
            Some(self.pixels[index])
        } else {
            None
        }
    }
}

/// Colours a density grid: every cell by its count relative to the largest
/// count of this grid.
pub fn colorize(grid: &DensityGrid) -> (pixels: PixelGrid)
    ensures
        pixels.width() == grid.width(),
        pixels.height() == grid.height(),
        pixels@ == shade(grid@),
{
    let counts = grid.counts();
    let max_count = grid.max_count();
    let mut pixels: Vec<Pixel> = Vec::new();
    let mut k: usize = 0;
    while k < counts.len()
        invariant
            k <= counts.len(),
            counts@.len() == grid@.len(),
            forall|j: int| 0 <= j < counts@.len() ==> counts@[j] as nat == grid@[j],
            max_count == max_of(grid@),
            pixels@.len() == k,
            forall|j: int| 0 <= j < k ==> pixels@[j] == color_of(grid@[j], max_of(grid@)),
        decreases counts.len() - k,
    {
        pixels.push(color_map(counts[k], max_count));
        k += 1;
    }
    let shaded = PixelGrid { width: grid.width(), height: grid.height(), pixels };
    proof {
        assert(shaded@ =~= shade(grid@));
    }
    shaded
}

/// If the box covers none of the points, every pixel of its raster is
/// transparent.
pub proof fn lemma_empty_is_transparent(
    points: Multiset<Point>,
    bbox: BoundingBox,
    width: u32,
    height: u32,
)
    requires
        forall|p: Point| points.contains(p) ==> !bbox.covers(p),
    ensures
        forall|k: int|
            0 <= k < width * height ==> #[trigger] shade(density(points, bbox, width, height))[k]
                == transparent(),
{
    let grid = density(points, bbox, width, height);
    assert forall|k: int| 0 <= k < grid.len() implies grid[k] == 0 by {
        let g = lands_in(bbox, width, height, k % (width as int), k / (width as int));
        assert forall|p: Point| points.contains(p) implies !g(p) by {
            if g(p) {
                lemma_cell_of_covered(p, bbox, width, height);
            }
        }
        lemma_filter_none(points, g);
    }
    lemma_all_zero(grid);
}

} // verus!
