use jesse_rust::vlma::{vlma_periods, BandPoint};

/// A price with bands at 10 < 20 < 30 < 40.
fn point(price: i64) -> BandPoint {
    BandPoint {
        price: Some(price),
        outer_low: Some(10),
        inner_low: Some(20),
        inner_high: Some(30),
        outer_high: Some(40),
    }
}

#[test]
fn walk_starts_at_max_and_moves_by_one() {
    // inside inner band: lengthen (held at max); beyond outer: shorten; between: keep
    let pts = vec![point(25), point(5), point(45), point(15), point(25), point(25), point(25)];
    assert_eq!(vlma_periods(&pts, 2, 5), vec![5, 4, 3, 3, 4, 5, 5]);
}

#[test]
fn walk_is_held_at_min() {
    let pts = vec![point(0), point(0), point(0), point(0), point(0)];
    assert_eq!(vlma_periods(&pts, 2, 4), vec![4, 3, 2, 2, 2]);
    assert_eq!(vlma_periods(&pts, 0, 1), vec![1, 0, 0, 0, 0]);
}

#[test]
fn walk_with_crossed_bounds_stays_at_max() {
    let pts = vec![point(0), point(25), point(0)];
    assert_eq!(vlma_periods(&pts, 9, 3), vec![3, 3, 3]);
}

#[test]
fn walk_ignores_nan_price() {
    let mut p = point(25);
    p.price = None;
    let pts = vec![point(25), p];
    assert_eq!(vlma_periods(&pts, 1, 6), vec![6, 6]);
    assert!(vlma_periods(&Vec::new(), 1, 6).is_empty());
}
