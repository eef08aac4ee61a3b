use jesse_rust::window::{
    range_first_max, range_first_min, rolling_max_positions, rolling_min_positions,
    window_first_max_offsets, window_first_min_offsets,
};

fn keys(v: &[i64]) -> Vec<Option<i64>> {
    v.iter().map(|&x| Some(x)).collect()
}

#[test]
fn rolling_max_keeps_latest_of_equal_highs() {
    let k = keys(&[1, 3, 3, 2]);
    assert_eq!(rolling_max_positions(&k, 4), vec![2]);
    assert_eq!(rolling_max_positions(&k, 2), vec![1, 2, 2]);
}

#[test]
fn rolling_min_keeps_latest_of_equal_lows() {
    let k = keys(&[5, 2, 2, 7, 1]);
    assert_eq!(rolling_min_positions(&k, 2), vec![1, 2, 2, 4]);
    assert_eq!(rolling_min_positions(&k, 3), vec![2, 2, 4]);
}

#[test]
fn rolling_window_of_one_is_each_position() {
    let k = keys(&[4, 9, 1]);
    assert_eq!(rolling_max_positions(&k, 1), vec![0, 1, 2]);
    assert_eq!(rolling_min_positions(&k, 1), vec![0, 1, 2]);
}

#[test]
fn rolling_shorter_series_has_no_window() {
    let k = keys(&[4, 9]);
    assert!(rolling_max_positions(&k, 3).is_empty());
    assert!(rolling_max_positions(&Vec::new(), 1).is_empty());
}

#[test]
fn rolling_front_leaves_with_the_window() {
    // 9 leaves the window at position 3; 5 then leads it.
    let k = keys(&[9, 5, 4, 3, 2]);
    assert_eq!(rolling_max_positions(&k, 3), vec![0, 1, 2]);
}

#[test]
fn rolling_nan_shields_earlier_prices() {
    // NaN compares false with everything: 9 cannot evict 5 past it.
    let k = vec![Some(5), None, Some(9)];
    assert_eq!(rolling_max_positions(&k, 3), vec![0]);
    // Once 5 leaves the window, the NaN leads it.
    let k = vec![Some(5), None, Some(9), Some(1)];
    assert_eq!(rolling_max_positions(&k, 3), vec![0, 1]);
}

#[test]
fn rolling_max_is_window_maximum_without_nan() {
    let k = keys(&[3, 8, 2, 8, 7, 1, 0, 6]);
    let fronts = rolling_max_positions(&k, 3);
    for (t, &f) in fronts.iter().enumerate() {
        let window = &k[t..t + 3];
        let best = window.iter().map(|x| x.unwrap()).max().unwrap();
        assert_eq!(k[f].unwrap(), best);
        // no later position of the window reaches the front's price
        assert!(k[f + 1..t + 3].iter().all(|x| x.unwrap() < best));
    }
}

#[test]
fn first_offsets_pick_first_extreme() {
    let k = keys(&[2, 5, 5, 1, 1]);
    assert_eq!(window_first_max_offsets(&k, 4), vec![1, 0]);
    assert_eq!(window_first_min_offsets(&k, 4), vec![3, 2]);
}

#[test]
fn first_offsets_stay_on_leading_nan() {
    let k = vec![None, Some(5), Some(7)];
    assert_eq!(window_first_max_offsets(&k, 3), vec![0]);
    assert_eq!(window_first_min_offsets(&k, 3), vec![0]);
}

#[test]
fn first_offsets_skip_inner_nan() {
    let k = vec![Some(4), None, Some(7), Some(1)];
    assert_eq!(window_first_max_offsets(&k, 4), vec![2]);
    assert_eq!(window_first_min_offsets(&k, 4), vec![3]);
}

#[test]
fn range_scan_skips_nan_and_keeps_first() {
    let k = vec![None, Some(3), Some(7), Some(7), Some(-2)];
    assert_eq!(range_first_max(&k, 0, 5), Some(2));
    assert_eq!(range_first_min(&k, 0, 4), Some(1));
    assert_eq!(range_first_min(&k, 0, 5), Some(4));
    assert_eq!(range_first_max(&k, 0, 1), None);
    assert_eq!(range_first_max(&k, 2, 2), None);
}

#[test]
fn deque_and_scan_read_the_same_extreme() {
    let k = keys(&[4, 7, 7, 1, 9, 9, 2, 2, 5]);
    let p = 4;
    let max_fronts = rolling_max_positions(&k, p);
    let min_fronts = rolling_min_positions(&k, p);
    for t in 0..max_fronts.len() {
        let hi = range_first_max(&k, t, t + p).unwrap();
        let lo = range_first_min(&k, t, t + p).unwrap();
        assert_eq!(k[max_fronts[t]], k[hi]);
        assert_eq!(k[min_fronts[t]], k[lo]);
        // the scan keeps the first of equal extremes, the deque the last
        assert!(hi <= max_fronts[t]);
        assert!(lo <= min_fronts[t]);
    }
}
