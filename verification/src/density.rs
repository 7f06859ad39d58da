//! The density binner: counting the points of a box per raster cell.

use vstd::prelude::*;
use vstd::multiset::Multiset;
use vstd::arithmetic::div_mod::{lemma_fundamental_div_mod, lemma_fundamental_div_mod_converse};
use crate::geometry::{Point, BoundingBox, covered_by, in_box};
use crate::counting::{lemma_filter_len_le, lemma_filter_insert, lemma_filter_all, lemma_filter_narrow,
    lemma_multiset_as_seq};

verus! {

/// The raster column of a point: its distance from the left edge of the box,
/// as a fraction of the box's width, scaled to `width` columns and rounded
/// down.
pub open spec fn column_of(p: Point, bbox: BoundingBox, width: u32) -> int {
    ((p.x - bbox.xmin) * width) / (bbox.xmax - bbox.xmin)
}

/// The raster row of a point: its distance from the top edge of the box, as a
/// fraction of the box's height, scaled to `height` rows and rounded down.
/// Row 0 is the northernmost.
pub open spec fn row_of(p: Point, bbox: BoundingBox, height: u32) -> int {
    ((bbox.ymax - p.y) * height) / (bbox.ymax - bbox.ymin)
}

/// The cell `(column, row)` that a point falls into, if it falls into the
/// raster at all. A box without area has no cells.
pub open spec fn cell_of(p: Point, bbox: BoundingBox, width: u32, height: u32) -> Option<
    (int, int),
> {
    if bbox.xmin < bbox.xmax && bbox.ymin < bbox.ymax && 0 <= column_of(p, bbox, width) < width
        && 0 <= row_of(p, bbox, height) < height {
        Some((column_of(p, bbox, width), row_of(p, bbox, height)))
    } else {
        None
    }
}

/// The test "falls into cell `(col, row)`", as a predicate on points.
pub open spec fn lands_in(bbox: BoundingBox, width: u32, height: u32, col: int, row: int) -> spec_fn(
    Point,
) -> bool {
    |p: Point| cell_of(p, bbox, width, height) == Some((col, row))
}

/// How many of the points fall into cell `(col, row)`.
pub open spec fn cell_count(
    points: Multiset<Point>,
    bbox: BoundingBox,
    width: u32,
    height: u32,
    col: int,
    row: int,
) -> nat {
    points.filter(lands_in(bbox, width, height, col, row)).len()
}

/// The density grid of a set of points over a box, row by row from the top:
/// cell `(col, row)` stands at index `row * width + col`.
pub open spec fn density(points: Multiset<Point>, bbox: BoundingBox, width: u32, height: u32) -> Seq<
    nat,
> {
    Seq::new(
        (width * height) as nat,
        |k: int| cell_count(points, bbox, width, height, k % (width as int), k / (width as int)),
    )
}

/// The sum of all counts of a grid.
pub open spec fn total(counts: Seq<nat>) -> nat
    decreases counts.len(),
{
    if counts.len() == 0 {
        0
    } else {
        total(counts.drop_last()) + counts.last()
    }
}

/// The largest count of a grid, and zero for a grid without cells.
pub open spec fn max_of(counts: Seq<nat>) -> nat
    decreases counts.len(),
{
    if counts.len() == 0 {
        0
    } else if counts.last() > max_of(counts.drop_last()) {
        counts.last()
    } else {
        max_of(counts.drop_last())
    }
}

/// Finds the raster cell of a point.
pub fn locate(p: &Point, bbox: &BoundingBox, width: u32, height: u32) -> (cell: Option<(u32, u32)>)
    ensures
        match cell {
            Some((col, row)) => cell_of(*p, *bbox, width, height) == Some((col as int, row as int)),
            None => cell_of(*p, *bbox, width, height) is None,
        },
{
    if bbox.xmin >= bbox.xmax || bbox.ymin >= bbox.ymax {
        return None;
    }
    if p.x < bbox.xmin || p.y > bbox.ymax {
        proof {
            let span_x = bbox.xmax - bbox.xmin;
            let span_y = bbox.ymax - bbox.ymin;
            if p.x < bbox.xmin && width > 0 {
                let shift = (p.x - bbox.xmin) * width;
                assert(shift < 0) by (nonlinear_arith)
                    requires
                        shift == (p.x - bbox.xmin) * width,
                        p.x - bbox.xmin < 0,
                        width > 0,
                ;
                assert(shift / span_x < 0) by (nonlinear_arith)
                    requires
                        shift < 0,
                        span_x > 0,
                ;
            }
            if p.y > bbox.ymax && height > 0 {
                let shift = (bbox.ymax - p.y) * height;
                assert(shift < 0) by (nonlinear_arith)
                    requires
                        shift == (bbox.ymax - p.y) * height,
                        bbox.ymax - p.y < 0,
                        height > 0,
                ;
                assert(shift / span_y < 0) by (nonlinear_arith)
                    requires
                        shift < 0,
                        span_y > 0,
                ;
            }
        }
        return None;
    }
    let dx: u128 = (p.x as i128 - bbox.xmin as i128) as u128;
    let dy: u128 = (bbox.ymax as i128 - p.y as i128) as u128;
    let span_x: u128 = (bbox.xmax as i128 - bbox.xmin as i128) as u128;
    let span_y: u128 = (bbox.ymax as i128 - bbox.ymin as i128) as u128;
    assert(dx * width <= 0xffff_ffff_ffff_ffff * 0xffff_ffff) by (nonlinear_arith)
        requires
            0 <= dx <= 0xffff_ffff_ffff_ffff,
            0 <= width <= 0xffff_ffff,
    ;
    assert(dy * height <= 0xffff_ffff_ffff_ffff * 0xffff_ffff) by (nonlinear_arith)
        requires
            0 <= dy <= 0xffff_ffff_ffff_ffff,
            0 <= height <= 0xffff_ffff,
    ;
    let col: u128 = dx * (width as u128) / span_x;
    let row: u128 = dy * (height as u128) / span_y;
    if col < width as u128 && row < height as u128 {
        Some((col as u32, row as u32))
    } else {
        None
    }
}

/// A raster of point counts, stored row by row from the top.
pub struct DensityGrid {
    width: u32,
    height: u32,
    counts: Vec<u32>,
}

impl DensityGrid {
    #[verifier::type_invariant]
    spec fn well_formed(self) -> bool {
        self.counts@.len() == self.width * self.height
    }

    /// The counts, row by row: cell `(col, row)` stands at index
    /// `row * width + col`.
    pub closed spec fn view(&self) -> Seq<nat> {
        self.counts@.map_values(|c: u32| c as nat)
    }

    /// The number of columns.
    pub closed spec fn spec_width(&self) -> u32 {
        self.width
    }

    /// The number of rows.
    pub closed spec fn spec_height(&self) -> u32 {
        self.height
    }

    /// The number of columns.
    #[verifier::when_used_as_spec(spec_width)]
    pub fn width(&self) -> (width: u32)
        ensures
            width == self.spec_width(),
    {
        self.width
    }

    /// The number of rows.
    #[verifier::when_used_as_spec(spec_height)]
    pub fn height(&self) -> (height: u32)
        ensures
            height == self.spec_height(),
    {
        self.height
    }

    /// The counts, row by row.
    pub fn counts(&self) -> (counts: &Vec<u32>)
        ensures
            counts@.len() == self@.len(),
            counts@.len() == self.width() * self.height(),
            forall|k: int| 0 <= k < counts@.len() ==> counts@[k] as nat == self@[k],
    {
        proof {
            use_type_invariant(self);
        }
        &self.counts
    }

    /// The count of cell `(col, row)`, if the grid has such a cell.
    pub fn count(&self, col: u32, row: u32) -> (count: Option<u32>)
        ensures
            match count {
                Some(count) => col < self.width() && row < self.height() && count
                    == self@[row * self.width() + col],
                None => col >= self.width() || row >= self.height(),
            },
    {
        proof {
            use_type_invariant(self);
        }
        let cells = self.counts.len();
        if col < self.width && row < self.height {
            proof {
                lemma_cell_index(self.width, self.height, col as int, row as int);
                assert(0 <= row * self.width) by (nonlinear_arith);
                assert(cells == self.width * self.height);
            }
            let index: usize = (row as usize) * (self.width as usize) + (col as usize);
            Some(self.counts[index])
        } else {
            None
        }
    }

    /// The largest count of the grid, and zero for a grid without cells.
    pub fn max_count(&self) -> (max: u32)
        ensures
            max == max_of(self@),
            forall|k: int| 0 <= k < self@.len() ==> self@[k] <= max,
            self@.len() > 0 ==> exists|k: int| 0 <= k < self@.len() && self@[k] == max,
    {
        let mut max: u32 = 0;
        let mut i: usize = 0;
        while i < self.counts.len()
            invariant
                i <= self.counts.len(),
                max == max_of(self@.take(i as int)),
            decreases self.counts.len() - i,
        {
            proof {
                assert(self@.take(i + 1).drop_last() =~= self@.take(i as int));
            }
            if self.counts[i] > max {
                max = self.counts[i];
            }
            i += 1;
        }
        proof {
            assert(self@.take(self.counts.len() as int) =~= self@);
            lemma_max_of(self@);
        }
        max
    }
}

/// Counts the points per cell of a `width` by `height` raster laid over the
/// box. Points outside the raster are left out; every other point adds one to
/// the count of its cell.
pub fn bin(points: &Vec<Point>, bbox: &BoundingBox, width: u32, height: u32) -> (grid: DensityGrid)
    requires
        points.len() <= u32::MAX,
        width * height <= usize::MAX,
    ensures
        grid.width() == width,
        grid.height() == height,
        grid@ == density(points@.to_multiset(), *bbox, width, height),
        width > 0 && height > 0 ==> total(grid@) == points@.to_multiset().filter(
            covered_by(*bbox),
        ).len(),
{
    let cells: usize = (width as usize) * (height as usize);
    let mut counts: Vec<u32> = Vec::new();
    let mut k: usize = 0;
    while k < cells
        invariant
            k <= cells,
            counts.len() == k,
            forall|j: int| 0 <= j < k ==> counts@[j] == 0,
        decreases cells - k,
    {
        counts.push(0);
        k += 1;
    }
    proof {
        assert(points@.take(0) =~= Seq::<Point>::empty());
        broadcast use vstd::multiset::group_multiset_axioms;
        assert(points@.take(0).to_multiset() =~= Multiset::<Point>::empty()) by {
            points@.take(0).to_multiset_ensures();
            vstd::multiset::lemma_multiset_empty_len(points@.take(0).to_multiset());
        }
        assert forall|j: int| 0 <= j < cells implies counts@[j] as nat == #[trigger] density(
            points@.take(0).to_multiset(),
            *bbox,
            width,
            height,
        )[j] by {
            let f = lands_in(*bbox, width, height, j % (width as int), j / (width as int));
            assert(Multiset::<Point>::empty().filter(f) =~= Multiset::<Point>::empty());
        }
    }
    let mut i: usize = 0;
    while i < points.len()
        invariant
            i <= points.len(),
            points.len() <= u32::MAX,
            cells == width * height,
            counts.len() == cells,
            forall|j: int|
                0 <= j < cells ==> counts@[j] as nat == #[trigger] density(
                    points@.take(i as int).to_multiset(),
                    *bbox,
                    width,
                    height,
                )[j],
        decreases points.len() - i,
    {
        let p = points[i];
        let ghost before = points@.take(i as int).to_multiset();
        let ghost after = points@.take(i + 1).to_multiset();
        proof {
            assert(points@.take(i + 1) =~= points@.take(i as int).push(p));
            points@.take(i as int).to_multiset_ensures();
            assert(after == before.insert(p));
        }
        match locate(&p, bbox, width, height) {
            Some((col, row)) => {
                proof {
                    lemma_cell_index(width, height, col as int, row as int);
                }
                let index: usize = (row as usize) * (width as usize) + (col as usize);
                proof {
                    let f = lands_in(*bbox, width, height, col as int, row as int);
                    lemma_filter_len_le(before, f);
                    assert(density(before, *bbox, width, height)[index as int] == before.filter(
                        f,
                    ).len());
                }
                let count = counts[index];
                counts.set(index, count + 1);
                proof {
                    assert forall|j: int| 0 <= j < cells implies counts@[j] as nat
                        == #[trigger] density(after, *bbox, width, height)[j] by {
                        let c = j % (width as int);
                        let r = j / (width as int);
                        let g = lands_in(*bbox, width, height, c, r);
                        lemma_filter_insert(before, g, p);
                        lemma_fundamental_div_mod(j, width as int);
                        assert(width as int * r == r * width) by (nonlinear_arith);
                        assert(density(before, *bbox, width, height)[j] == before.filter(g).len());
                        assert(g(p) <==> j == index);
                    }
                }
            },
            None => {
                proof {
                    assert forall|j: int| 0 <= j < cells implies counts@[j] as nat
                        == #[trigger] density(after, *bbox, width, height)[j] by {
                        let c = j % (width as int);
                        let r = j / (width as int);
                        let g = lands_in(*bbox, width, height, c, r);
                        lemma_filter_insert(before, g, p);
                        assert(density(before, *bbox, width, height)[j] == before.filter(g).len());
                        assert(!g(p));
                    }
                }
            },
        }
        i += 1;
    }
    proof {
        assert(points@.take(points.len() as int) =~= points@);
    }
    let grid = DensityGrid { width, height, counts };
    proof {
        assert(grid@ =~= density(points@.to_multiset(), *bbox, width, height));
        if width > 0 && height > 0 {
            lemma_count_conservation(points@.to_multiset(), *bbox, width, height);
        }
    }
    grid
}

/// A cell of a raster has exactly one index in row-major order, and that
/// index splits back into the cell's column and row.
pub proof fn lemma_cell_index(width: u32, height: u32, col: int, row: int)
    requires
        0 <= col < width,
        0 <= row < height,
    ensures
        0 <= row * width + col < width * height,
        (row * width + col) % (width as int) == col,
        (row * width + col) / (width as int) == row,
{
    assert(row * width + col < width * height) by (nonlinear_arith)
        requires
            0 <= col < width,
            0 <= row < height,
    ;
    assert(0 <= row * width) by (nonlinear_arith)
        requires
            0 <= row,
            0 <= width,
    ;
    lemma_fundamental_div_mod_converse(row * width + col, width as int, row, col);
}

/// A point falls into some cell of a raster with at least one column and one
/// row exactly if the box covers it: its left and top edges count, its right
/// and bottom edges do not.
pub proof fn lemma_cell_of_covered(p: Point, bbox: BoundingBox, width: u32, height: u32)
    requires
        width > 0,
        height > 0,
    ensures
        cell_of(p, bbox, width, height) is Some <==> bbox.covers(p),
{
    if bbox.xmin < bbox.xmax && bbox.ymin < bbox.ymax {
        lemma_scaled_in_range(p.x - bbox.xmin, bbox.xmax - bbox.xmin, width as int);
        lemma_scaled_in_range(bbox.ymax - p.y, bbox.ymax - bbox.ymin, height as int);
    }
}

/// Scaling a distance `d` along a span to `n > 0` steps and rounding down
/// gives a step in `0..n` exactly if `0 <= d < span`.
proof fn lemma_scaled_in_range(d: int, span: int, n: int)
    requires
        span > 0,
        n > 0,
    ensures
        0 <= (d * n) / span < n <==> 0 <= d < span,
{
    let q = (d * n) / span;
    lemma_fundamental_div_mod(d * n, span);
    vstd::arithmetic::div_mod::lemma_mod_bound(d * n, span);
    if d < 0 {
        assert(d * n < 0) by (nonlinear_arith)
            requires
                d < 0,
                n > 0,
        ;
        assert(q < 0) by (nonlinear_arith)
            requires
                d * n < 0,
                span > 0,
                d * n == span * q + (d * n) % span,
                0 <= (d * n) % span,
        ;
    } else if d >= span {
        assert(d * n >= span * n) by (nonlinear_arith)
            requires
                d >= span,
                n > 0,
        ;
        assert(q >= n) by (nonlinear_arith)
            requires
                d * n >= span * n,
                span > 0,
                d * n == span * q + (d * n) % span,
                (d * n) % span < span,
        ;
    } else {
        assert(0 <= d * n < span * n) by (nonlinear_arith)
            requires
                0 <= d < span,
                n > 0,
        ;
        assert(0 <= q < n) by (nonlinear_arith)
            requires
                0 <= d * n < span * n,
                span > 0,
                d * n == span * q + (d * n) % span,
                0 <= (d * n) % span < span,
        ;
    }
}

/// Replacing one count of a grid changes the total by the difference.
proof fn lemma_total_update(counts: Seq<nat>, k: int, v: nat)
    requires
        0 <= k < counts.len(),
    ensures
        total(counts.update(k, v)) == total(counts) - counts[k] + v,
    decreases counts.len(),
{
    if k == counts.len() - 1 {
        assert(counts.update(k, v).drop_last() =~= counts.drop_last());
    } else {
        lemma_total_update(counts.drop_last(), k, v);
        assert(counts.update(k, v).drop_last() =~= counts.drop_last().update(k, v));
    }
}

/// A grid of zeros has total zero and maximum zero.
pub proof fn lemma_all_zero(counts: Seq<nat>)
    requires
        forall|k: int| 0 <= k < counts.len() ==> counts[k] == 0,
    ensures
        total(counts) == 0,
        max_of(counts) == 0,
    decreases counts.len(),
{
    if counts.len() > 0 {
        lemma_all_zero(counts.drop_last());
    }
}

/// The maximum bounds every count, and some cell attains it.
pub proof fn lemma_max_of(counts: Seq<nat>)
    ensures
        forall|k: int| 0 <= k < counts.len() ==> counts[k] <= max_of(counts),
        counts.len() > 0 ==> exists|k: int| 0 <= k < counts.len() && counts[k] == max_of(counts),
    decreases counts.len(),
{
    if counts.len() > 0 {
        let rest = counts.drop_last();
        lemma_max_of(rest);
        assert forall|k: int| 0 <= k < counts.len() implies counts[k] <= max_of(counts) by {
            if k < rest.len() {
                assert(counts[k] == rest[k]);
            }
        }
        if counts.last() > max_of(rest) || rest.len() == 0 {
            assert(counts[counts.len() - 1] == max_of(counts));
        } else {
            let k = choose|k: int| 0 <= k < rest.len() && rest[k] == max_of(rest);
            assert(counts[k] == max_of(counts));
        }
    }
}

/// The test "falls into some cell of the raster", as a predicate on points.
pub open spec fn placed(bbox: BoundingBox, width: u32, height: u32) -> spec_fn(Point) -> bool {
    |p: Point| cell_of(p, bbox, width, height) is Some
}

/// The counts of a grid add up to the number of points that fall into the
/// raster, for the points of a sequence.
proof fn lemma_total_of_sequence(points: Seq<Point>, bbox: BoundingBox, width: u32, height: u32)
    ensures
        total(density(points.to_multiset(), bbox, width, height)) == points.to_multiset().filter(
            placed(bbox, width, height),
        ).len(),
    decreases points.len(),
{
    broadcast use vstd::multiset::group_multiset_axioms;

    let all = points.to_multiset();
    let grid = density(all, bbox, width, height);
    points.to_multiset_ensures();
    if points.len() == 0 {
        vstd::multiset::lemma_multiset_empty_len(all);
        assert forall|k: int| 0 <= k < grid.len() implies grid[k] == 0 by {
            let g = lands_in(bbox, width, height, k % (width as int), k / (width as int));
            assert(all.filter(g) =~= Multiset::<Point>::empty());
        }
        lemma_all_zero(grid);
        assert(all.filter(placed(bbox, width, height)) =~= Multiset::<Point>::empty());
    } else {
        let p = points.last();
        let shorter = points.drop_last();
        let before = shorter.to_multiset();
        let old_grid = density(before, bbox, width, height);
        lemma_total_of_sequence(shorter, bbox, width, height);
        shorter.to_multiset_ensures();
        assert(points =~= shorter.push(p));
        assert(all == before.insert(p));
        lemma_filter_insert(before, placed(bbox, width, height), p);
        match cell_of(p, bbox, width, height) {
            Some((col, row)) => {
                let index = row * width + col;
                lemma_cell_index(width, height, col, row);
                assert(grid =~= old_grid.update(index, old_grid[index] + 1)) by {
                    assert forall|k: int| 0 <= k < grid.len() implies grid[k] == old_grid.update(
                        index,
                        old_grid[index] + 1,
                    )[k] by {
                        let c = k % (width as int);
                        let r = k / (width as int);
                        let g = lands_in(bbox, width, height, c, r);
                        lemma_filter_insert(before, g, p);
                        lemma_fundamental_div_mod(k, width as int);
                        assert(width as int * r == r * width) by (nonlinear_arith);
                        assert(g(p) <==> k == index);
                    }
                }
                lemma_total_update(old_grid, index, old_grid[index] + 1);
            },
            None => {
                assert(grid =~= old_grid) by {
                    assert forall|k: int| 0 <= k < grid.len() implies grid[k] == old_grid[k] by {
                        let g = lands_in(
                            bbox,
                            width,
                            height,
                            k % (width as int),
                            k / (width as int),
                        );
                        lemma_filter_insert(before, g, p);
                        assert(!g(p));
                    }
                }
            },
        }
    }
}

/// The entry of the density grid that belongs to cell `(col, row)` is the
/// number of points that fall into that cell.
pub proof fn lemma_density_at(
    points: Multiset<Point>,
    bbox: BoundingBox,
    width: u32,
    height: u32,
    col: int,
    row: int,
)
    requires
        0 <= col < width,
        0 <= row < height,
    ensures
        0 <= row * width + col < density(points, bbox, width, height).len(),
        density(points, bbox, width, height)[row * width + col] == cell_count(
            points,
            bbox,
            width,
            height,
            col,
            row,
        ),
{
    lemma_cell_index(width, height, col, row);
}

/// Points outside the closed box have no part in the density grid over it.
pub proof fn lemma_density_of_box(
    points: Multiset<Point>,
    bbox: BoundingBox,
    width: u32,
    height: u32,
)
    ensures
        density(points.filter(in_box(bbox)), bbox, width, height) == density(
            points,
            bbox,
            width,
            height,
        ),
{
    let inside = points.filter(in_box(bbox));
    assert forall|k: int| 0 <= k < width * height implies density(inside, bbox, width, height)[k]
        == density(points, bbox, width, height)[k] by {
        let g = lands_in(bbox, width, height, k % (width as int), k / (width as int));
        assert forall|p: Point| #[trigger] g(p) implies in_box(bbox)(p) by {
            lemma_cell_of_covered(p, bbox, width, height);
        }
        lemma_filter_narrow(points, in_box(bbox), g);
    }
    assert(density(inside, bbox, width, height) =~= density(points, bbox, width, height));
}

/// The counts of a density grid add up to the number of points that fall
/// into the raster: every such point is counted once, and no other.
pub proof fn lemma_total_is_placed(
    points: Multiset<Point>,
    bbox: BoundingBox,
    width: u32,
    height: u32,
)
    ensures
        total(density(points, bbox, width, height)) == points.filter(
            placed(bbox, width, height),
        ).len(),
{
    let listed = lemma_multiset_as_seq(points);
    lemma_total_of_sequence(listed, bbox, width, height);
}

/// On a raster with at least one column and one row, the counts of a density
/// grid add up to the number of points that the box covers. Points on the
/// right or bottom edge of the box are not among them. If the box covers
/// every point, the counts add up to the number of points.
pub proof fn lemma_count_conservation(
    points: Multiset<Point>,
    bbox: BoundingBox,
    width: u32,
    height: u32,
)
    requires
        width > 0,
        height > 0,
    ensures
        total(density(points, bbox, width, height)) == points.filter(covered_by(bbox)).len(),
        (forall|p: Point| points.contains(p) ==> bbox.covers(p)) ==> total(
            density(points, bbox, width, height),
        ) == points.len(),
{
    broadcast use vstd::multiset::group_multiset_axioms;

    lemma_total_is_placed(points, bbox, width, height);
    assert(points.filter(placed(bbox, width, height)) =~= points.filter(covered_by(bbox))) by {
        assert forall|p: Point|
            points.filter(placed(bbox, width, height)).count(p) == points.filter(
                covered_by(bbox),
            ).count(p) by {
            lemma_cell_of_covered(p, bbox, width, height);
        }
    }
    if forall|p: Point| points.contains(p) ==> bbox.covers(p) {
        lemma_filter_all(points, covered_by(bbox));
    }
}

} // verus!
