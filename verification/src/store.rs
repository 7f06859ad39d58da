//! The point store: an immutable R-tree over the points of the dataset.

use vstd::prelude::*;
use vstd::multiset::Multiset;
use rstar::{RTree, AABB};
use crate::geometry::{Point, BoundingBox, in_box};
use crate::counting::{lemma_filter_len_le, lemma_filter_none};

verus! {

/// An R-tree of two-dimensional integer points, `rstar::RTree<[i64; 2]>`.
/// What is inside the tree is not modelled; [`indexed_points`] names the
/// points that it holds.
#[verifier::external_body]
pub struct PointIndex {
    tree: RTree<[i64; 2]>,
}

/// The points that an index holds, each as often as it was loaded.
pub uninterp spec fn indexed_points(index: PointIndex) -> Multiset<Point>;

/// `RTree::bulk_load` on the points as `[x, y]` arrays: the tree holds
/// exactly the elements it was given, duplicates included.
#[verifier::external_body]
fn load_index(points: &Vec<Point>) -> (index: PointIndex)
    ensures
        indexed_points(index) == points@.to_multiset(),
{
    PointIndex { tree: RTree::bulk_load(points.iter().map(|p| [p.x, p.y]).collect()) }
}

/// `RTree::locate_in_envelope` on the envelope
/// `AABB::from_corners([xmin, ymin], [xmax, ymax])`: yields, in no particular
/// order, every element of the tree that lies in the closed box, as often as
/// the tree holds it, and nothing else. The corners are required in order,
/// so that `from_corners` keeps them as they are.
#[verifier::external_body]
fn locate_in_box(index: &PointIndex, bbox: &BoundingBox) -> (found: Vec<Point>)
    requires
        bbox.xmin <= bbox.xmax,
        bbox.ymin <= bbox.ymax,
    ensures
        found@.to_multiset() == indexed_points(*index).filter(in_box(*bbox)),
{
    let envelope = AABB::from_corners([bbox.xmin, bbox.ymin], [bbox.xmax, bbox.ymax]);
    index.tree.locate_in_envelope(envelope).map(|p| Point { x: p[0], y: p[1] }).collect()
}

/// The points of the dataset, indexed for box queries. A store is built once
/// and never changes.
pub struct PointStore {
    index: PointIndex,
}

impl PointStore {
    /// The points of the store, each as often as the dataset has it.
    pub closed spec fn view(&self) -> Multiset<Point> {
        indexed_points(self.index)
    }

    /// A store never holds more points than a 32-bit count can tell.
    #[verifier::type_invariant]
    spec fn counts_fit(self) -> bool {
        indexed_points(self.index).len() <= u32::MAX
    }

    /// Indexes the points in one pass. The number of points must fit the
    /// 32-bit counts of a density grid.
    pub fn build(points: Vec<Point>) -> (store: PointStore)
        requires
            points.len() <= u32::MAX,
        ensures
            store@ == points@.to_multiset(),
    {
        proof {
            points@.to_multiset_ensures();
        }
        PointStore { index: load_index(&points) }
    }

    /// The points of the store that lie in the closed box, in no particular
    /// order. A box whose corners are out of order holds no point.
    pub fn query(&self, bbox: &BoundingBox) -> (found: Vec<Point>)
        ensures
            found@.to_multiset() == self@.filter(in_box(*bbox)),
            found.len() <= u32::MAX,
    {
        proof {
            use_type_invariant(self);
            lemma_filter_len_le(self@, in_box(*bbox));
        }
        if bbox.xmin > bbox.xmax || bbox.ymin > bbox.ymax {
            let found: Vec<Point> = Vec::new();
            proof {
                lemma_filter_none(self@, in_box(*bbox));
                found@.to_multiset_ensures();
            }
            found
        } else {
            let found = locate_in_box(&self.index, bbox);
            proof {
                found@.to_multiset_ensures();
            }
            found
        }
    }
}

} // verus!
