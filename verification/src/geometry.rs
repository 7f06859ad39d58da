//! Points and axis-aligned boxes on the projected plane, in world units.

use vstd::prelude::*;

verus! {

/// A position on the projected plane: `x` grows eastwards, `y` northwards.
#[derive(Clone, Copy, Debug, PartialEq, Eq, Structural)]
pub struct Point {
    pub x: i64,
    pub y: i64,
}

impl Point {
    /// The point of a record of the dataset. A coordinate that the record
    /// lacks is taken as zero, so a record without coordinates lands on the
    /// origin of the plane.
    pub fn from_record(x: Option<i64>, y: Option<i64>) -> (p: Point)
        ensures
            p.x == match x {
                Some(v) => v,
                None => 0,
            },
            p.y == match y {
                Some(v) => v,
                None => 0,
            },
    {
        let x = match x {
            Some(v) => v,
            None => 0,
        };
        let y = match y {
            Some(v) => v,
            None => 0,
        };
        Point { x, y }
    }
}

/// An axis-aligned box on the projected plane.
///
/// Nothing forces `xmin <= xmax` or `ymin <= ymax`; a box that violates
/// either holds no point at all.
#[derive(Clone, Copy, Debug, PartialEq, Eq, Structural)]
pub struct BoundingBox {
    pub xmin: i64,
    pub ymin: i64,
    pub xmax: i64,
    pub ymax: i64,
}

impl BoundingBox {
    /// The closed box: both edges of each axis belong to it.
    pub open spec fn contains(self, p: Point) -> bool {
        self.xmin <= p.x <= self.xmax && self.ymin <= p.y <= self.ymax
    }

    /// The part of the box that a raster of it shows: the left and top edges
    /// belong to it, the right and bottom edges to the neighbouring boxes.
    pub open spec fn covers(self, p: Point) -> bool {
        self.xmin <= p.x < self.xmax && self.ymin < p.y <= self.ymax
    }
}

/// The test "lies in the closed box", as a predicate on points.
pub open spec fn in_box(bbox: BoundingBox) -> spec_fn(Point) -> bool {
    |p: Point| bbox.contains(p)
}

/// The test "lies in the part of the box that its raster shows", as a
/// predicate on points.
pub open spec fn covered_by(bbox: BoundingBox) -> spec_fn(Point) -> bool {
    |p: Point| bbox.covers(p)
}

} // verus!
