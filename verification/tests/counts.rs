use jesse_rust::counts::window_present_counts;

#[test]
fn counts_follow_the_window() {
    let present = vec![true, false, true, true, false, false];
    assert_eq!(window_present_counts(&present, 3), vec![1, 1, 2, 2, 2, 1]);
}

#[test]
fn counts_without_nan_equal_the_period() {
    let present = vec![true; 7];
    let counts = window_present_counts(&present, 4);
    assert!(counts[3..].iter().all(|&c| c == 4));
    assert_eq!(&counts[..3], &[1, 2, 3]);
}

#[test]
fn counts_of_empty_window_are_zero() {
    let present = vec![true, false, true];
    assert_eq!(window_present_counts(&present, 0), vec![0, 0, 0]);
    assert!(window_present_counts(&Vec::new(), 2).is_empty());
}
