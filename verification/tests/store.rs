use heatmap_tiles::geometry::{BoundingBox, Point};
use heatmap_tiles::store::PointStore;

fn sorted(mut points: Vec<Point>) -> Vec<(i64, i64)> {
    let mut pairs: Vec<(i64, i64)> = points.drain(..).map(|p| (p.x, p.y)).collect();
    pairs.sort();
    pairs
}

fn sample() -> Vec<Point> {
    vec![
        Point { x: 0, y: 0 },
        Point { x: 0, y: 0 },
        Point { x: 10, y: 10 },
        Point { x: -5, y: 7 },
        Point { x: 3, y: -8 },
        Point { x: 10, y: -10 },
    ]
}

#[test]
fn query_returns_the_points_of_the_closed_box() {
    let store = PointStore::build(sample());
    let found = store.query(&BoundingBox { xmin: 0, ymin: 0, xmax: 10, ymax: 10 });
    assert_eq!(sorted(found), vec![(0, 0), (0, 0), (10, 10)]);
    let found = store.query(&BoundingBox { xmin: -5, ymin: -8, xmax: 3, ymax: 7 });
    assert_eq!(sorted(found), vec![(-5, 7), (0, 0), (0, 0), (3, -8)]);
}

#[test]
fn query_of_the_whole_plane_returns_everything() {
    let store = PointStore::build(sample());
    let all = BoundingBox { xmin: i64::MIN, ymin: i64::MIN, xmax: i64::MAX, ymax: i64::MAX };
    assert_eq!(sorted(store.query(&all)), sorted(sample()));
}

#[test]
fn query_of_a_single_position() {
    let store = PointStore::build(sample());
    let found = store.query(&BoundingBox { xmin: 0, ymin: 0, xmax: 0, ymax: 0 });
    assert_eq!(sorted(found), vec![(0, 0), (0, 0)]);
    let found = store.query(&BoundingBox { xmin: 1, ymin: 1, xmax: 1, ymax: 1 });
    assert!(found.is_empty());
}

#[test]
fn query_of_an_inverted_box_is_empty() {
    let store = PointStore::build(sample());
    assert!(store.query(&BoundingBox { xmin: 10, ymin: 0, xmax: 0, ymax: 10 }).is_empty());
    assert!(store.query(&BoundingBox { xmin: 0, ymin: 10, xmax: 10, ymax: 0 }).is_empty());
    assert!(store.query(&BoundingBox { xmin: 10, ymin: 10, xmax: -10, ymax: -10 }).is_empty());
}

#[test]
fn query_of_an_empty_store_is_empty() {
    let store = PointStore::build(Vec::new());
    let all = BoundingBox { xmin: i64::MIN, ymin: i64::MIN, xmax: i64::MAX, ymax: i64::MAX };
    assert!(store.query(&all).is_empty());
}

#[test]
fn query_of_a_large_store() {
    let mut points = Vec::new();
    for i in 0..5000i64 {
        points.push(Point { x: (i * 7919) % 1000 - 500, y: (i * 104_729) % 1000 - 500 });
    }
    points.push(Point { x: i64::MAX, y: i64::MIN });
    points.push(Point { x: i64::MIN, y: i64::MAX });
    let store = PointStore::build(points.clone());
    let bbox = BoundingBox { xmin: -100, ymin: 0, xmax: 250, ymax: 499 };
    let expected: Vec<Point> = points
        .iter()
        .filter(|p| -100 <= p.x && p.x <= 250 && 0 <= p.y && p.y <= 499)
        .copied()
        .collect();
    assert!(!expected.is_empty());
    assert_eq!(sorted(store.query(&bbox)), sorted(expected));
    let corner = BoundingBox { xmin: i64::MAX, ymin: i64::MIN, xmax: i64::MAX, ymax: i64::MIN };
    assert_eq!(sorted(store.query(&corner)), vec![(i64::MAX, i64::MIN)]);
}
