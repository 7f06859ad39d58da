//! Density heatmap tiles for a static set of points on the Web-Mercator plane.
//!
//! A tile is addressed slippy-map style by `(zoom, x, y)` and rendered as a
//! 256x256 raster: the points inside the tile's footprint are counted per
//! pixel, the counts are coloured relative to the busiest pixel of the tile,
//! and the pixels are written out as a PNG image.
//!
//! All coordinates are integers in world units (see [`tiles`]), so every step
//! up to the PNG encoder is exact and carries a proved contract:
//!
//! - [`tiles`] maps a tile address to its footprint on the plane;
//! - [`store`] keeps the points in an R-tree and answers box queries;
//! - [`density`] counts the points of a box per raster cell;
//! - [`color`] turns the counts into pixels;
//! - [`encode`] writes the pixels as a PNG image;
//! - [`render`] runs these in turn for one tile.
//!
//! Two things are taken on trust: that the R-tree of the `rstar` crate hands
//! back exactly the points of a box, and that the PNG encoder of the `image`
//! crate is a function of the pixels it is given.

pub mod color;
pub mod counting;
pub mod density;
pub mod encode;
pub mod geometry;
pub mod render;
pub mod store;
pub mod tiles;
