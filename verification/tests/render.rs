use heatmap_tiles::color::{colorize, Pixel};
use heatmap_tiles::density::bin;
use heatmap_tiles::encode::{encode_png, outcome, to_rgba, EncodeError};
use heatmap_tiles::geometry::{BoundingBox, Point};
use heatmap_tiles::render::{render_tile, tile_grid, TILE_SIZE};
use heatmap_tiles::store::PointStore;
use heatmap_tiles::tiles::WORLD_HALF;

const EARTH_RADIUS: f64 = 6378137.0;

/// A position given in metres, in world units: east rounded down, north
/// rounded up, so that the point stays in the pixel it belongs to.
fn from_metres(x: f64, y: f64) -> Point {
    let scale = WORLD_HALF as f64 / (std::f64::consts::PI * EARTH_RADIUS);
    Point { x: (x * scale).floor() as i64, y: (y * scale).ceil() as i64 }
}

fn three_points() -> PointStore {
    PointStore::build(vec![from_metres(0.0, 0.0), from_metres(0.0, 0.0), from_metres(100.0, 100.0)])
}

fn decode(bytes: &[u8]) -> Vec<[u8; 4]> {
    let image = image::load_from_memory(bytes).unwrap().to_rgba8();
    assert_eq!(image.width(), TILE_SIZE);
    assert_eq!(image.height(), TILE_SIZE);
    image.pixels().map(|p| p.0).collect()
}

#[test]
fn metres_to_world_units() {
    assert_eq!(from_metres(0.0, 0.0), Point { x: 0, y: 0 });
    assert_eq!(from_metres(100.0, 100.0), Point { x: 2679, y: 2680 });
    let edge = std::f64::consts::PI * EARTH_RADIUS;
    assert_eq!(from_metres(-edge, edge), Point { x: -WORLD_HALF, y: WORLD_HALF });
}

#[test]
fn end_to_end_grid_of_the_world_tile() {
    let store = three_points();
    let grid = tile_grid(0, 0, 0, &store);
    assert_eq!(grid.width(), 256);
    assert_eq!(grid.height(), 256);
    assert_eq!(grid.count(128, 128), Some(2));
    assert_eq!(grid.count(128, 127), Some(1));
    assert_eq!(grid.max_count(), 2);
    let counts = grid.counts();
    assert_eq!(counts.len(), 65_536);
    for (index, count) in counts.iter().enumerate() {
        let expected = if index == 128 * 256 + 128 {
            2
        } else if index == 127 * 256 + 128 {
            1
        } else {
            0
        };
        assert_eq!(*count, expected, "cell {index}");
    }
}

#[test]
fn end_to_end_image_of_the_world_tile() {
    let store = three_points();
    let bytes = render_tile(0, 0, 0, &store).unwrap();
    assert_eq!(&bytes[..8], &[0x89, b'P', b'N', b'G', 0x0d, 0x0a, 0x1a, 0x0a]);
    let pixels = decode(&bytes);
    assert_eq!(pixels.len(), 65_536);
    for (index, pixel) in pixels.iter().enumerate() {
        let expected = if index == 128 * 256 + 128 {
            [255, 0, 0, 255]
        } else if index == 127 * 256 + 128 {
            [128, 0, 127, 255]
        } else {
            [0, 0, 0, 0]
        };
        assert_eq!(*pixel, expected, "pixel {index}");
    }
}

#[test]
fn deeper_tiles_pull_the_points_apart() {
    let store = three_points();
    let grid = tile_grid(18, 131_072, 131_071, &store);
    let near = from_metres(100.0, 100.0);
    let span = 1i64 << 12;
    let col = (near.x * 256 / span) as u32;
    let row = ((span - near.y) * 256 / span) as u32;
    assert_eq!((col, row), (167, 88));
    assert_eq!(grid.count(col, row), Some(1));
    assert_eq!(grid.count(0, 255), Some(0));
    assert_eq!(grid.counts().iter().map(|c| *c as u64).sum::<u64>(), 1);
    let origin_tile = tile_grid(18, 131_072, 131_072, &store);
    assert_eq!(origin_tile.count(0, 0), Some(2));
    assert_eq!(origin_tile.counts().iter().map(|c| *c as u64).sum::<u64>(), 2);
}

#[test]
fn tile_without_points_is_transparent() {
    let store = three_points();
    let bytes = render_tile(3, 0, 0, &store).unwrap();
    assert!(decode(&bytes).iter().all(|p| *p == [0, 0, 0, 0]));
    let empty = PointStore::build(Vec::new());
    let bytes = render_tile(0, 0, 0, &empty).unwrap();
    assert!(decode(&bytes).iter().all(|p| *p == [0, 0, 0, 0]));
}

#[test]
fn out_of_range_tile_is_rendered() {
    let store = three_points();
    let bytes = render_tile(0, 7, 9, &store).unwrap();
    assert!(decode(&bytes).iter().all(|p| *p == [0, 0, 0, 0]));
    let bytes = render_tile(2, u32::MAX, u32::MAX, &store).unwrap();
    assert!(decode(&bytes).iter().all(|p| *p == [0, 0, 0, 0]));
}

#[test]
fn tile_at_the_deepest_zoom_shows_its_point() {
    let store = PointStore::build(vec![Point { x: -WORLD_HALF, y: WORLD_HALF }]);
    let bytes = render_tile(30, 0, 0, &store).unwrap();
    let pixels = decode(&bytes);
    assert_eq!(pixels[0], [255, 0, 0, 255]);
    assert_eq!(pixels.iter().filter(|p| **p != [0, 0, 0, 0]).count(), 1);
}

#[test]
fn tile_beyond_the_deepest_zoom_is_rendered() {
    let store = PointStore::build(vec![Point { x: 0, y: 0 }, Point { x: 0, y: 0 }, Point { x: 1, y: 0 }]);
    let grid = tile_grid(31, (1 << 30) + 1, (1 << 30) + 1, &store);
    assert_eq!(grid.count(0, 0), Some(2));
    assert_eq!(grid.counts().iter().map(|c| *c as u64).sum::<u64>(), 2);
    let pixels = decode(&render_tile(31, (1 << 30) + 1, (1 << 30) + 1, &store).unwrap());
    assert_eq!(pixels[0], [255, 0, 0, 255]);
    assert_eq!(pixels.iter().filter(|p| **p != [0, 0, 0, 0]).count(), 1);
    let pixels = decode(&render_tile(32, (1 << 31) + 3, (1 << 31) + 3, &store).unwrap());
    assert_eq!(pixels[0], [255, 0, 0, 255]);
    assert_eq!(pixels.iter().filter(|p| **p != [0, 0, 0, 0]).count(), 1);
    let pixels = decode(&render_tile(31, (1 << 30) + 3, (1 << 30) + 1, &store).unwrap());
    assert_eq!(pixels[0], [255, 0, 0, 255]);
    assert_eq!(pixels.iter().filter(|p| **p != [0, 0, 0, 0]).count(), 1);
}

#[test]
fn tile_narrower_than_a_unit_may_hold_no_point() {
    let store = PointStore::build(vec![Point { x: 0, y: 0 }]);
    let pixels = decode(&render_tile(31, 1 << 30, 1 << 30, &store).unwrap());
    assert!(pixels.iter().all(|p| *p == [0, 0, 0, 0]));
    let pixels = decode(&render_tile(u32::MAX, 0, 0, &store).unwrap());
    assert!(pixels.iter().all(|p| *p == [0, 0, 0, 0]));
}

#[test]
fn rendering_is_repeatable() {
    let store = three_points();
    let first = render_tile(0, 0, 0, &store).unwrap();
    let second = render_tile(0, 0, 0, &store).unwrap();
    assert_eq!(first, second);
    let shuffled = PointStore::build(vec![
        from_metres(100.0, 100.0),
        from_metres(0.0, 0.0),
        from_metres(0.0, 0.0),
    ]);
    assert_eq!(render_tile(0, 0, 0, &shuffled).unwrap(), first);
}

#[test]
fn pixels_are_laid_out_four_bytes_each() {
    let bbox = BoundingBox { xmin: 0, ymin: 0, xmax: 2, ymax: 1 };
    let points = vec![Point { x: 0, y: 1 }, Point { x: 0, y: 1 }, Point { x: 1, y: 1 }];
    let pixels = colorize(&bin(&points, &bbox, 2, 1));
    assert_eq!(
        pixels.pixels(),
        &vec![
            Pixel { red: 255, green: 0, blue: 0, alpha: 255 },
            Pixel { red: 128, green: 0, blue: 127, alpha: 255 },
        ]
    );
    assert_eq!(to_rgba(&pixels), vec![255, 0, 0, 255, 128, 0, 127, 255]);
}

#[test]
fn encoded_image_decodes_to_the_pixels() {
    let bbox = BoundingBox { xmin: 0, ymin: 0, xmax: 3, ymax: 2 };
    let points = vec![
        Point { x: 0, y: 2 },
        Point { x: 2, y: 1 },
        Point { x: 2, y: 1 },
        Point { x: 2, y: 1 },
        Point { x: 1, y: 1 },
        Point { x: 1, y: 1 },
    ];
    let pixels = colorize(&bin(&points, &bbox, 3, 2));
    let rgba = to_rgba(&pixels);
    let bytes = encode_png(&pixels).unwrap();
    assert_ne!(bytes, rgba);
    let image = image::load_from_memory(&bytes).unwrap().to_rgba8();
    assert_eq!((image.width(), image.height()), (3, 2));
    assert_eq!(image.into_raw(), rgba);
    assert_eq!(
        rgba,
        vec![
            85, 0, 170, 255, 0, 0, 0, 0, 0, 0, 0, 0, //
            0, 0, 0, 0, 170, 0, 85, 255, 255, 0, 0, 255,
        ]
    );
}

#[test]
fn image_without_pixels_is_rejected() {
    let bbox = BoundingBox { xmin: 0, ymin: 0, xmax: 3, ymax: 2 };
    let no_columns = colorize(&bin(&Vec::new(), &bbox, 0, 4));
    assert_eq!(encode_png(&no_columns), Err(EncodeError::Rejected));
    let no_rows = colorize(&bin(&Vec::new(), &bbox, 4, 0));
    assert_eq!(encode_png(&no_rows), Err(EncodeError::Rejected));
}

#[test]
fn outcome_keeps_bytes_and_maps_refusals() {
    assert_eq!(outcome(Ok(vec![1, 2, 3])), Ok(vec![1, 2, 3]));
    assert_eq!(outcome(Ok(Vec::new())), Ok(Vec::new()));
    let refusal = image::ImageError::IoError(std::io::Error::other("refused"));
    assert_eq!(outcome(Err(refusal)), Err(EncodeError::Rejected));
}
