//! Tests of the clamping and window-planning stages on their own.

use downsample::plan::clamp_range;
use downsample::plan::plan_windows;

#[test]
fn clamp_keeps_valid_bounds() {
    assert_eq!(clamp_range(0, 5, 5), (0, 5));
    assert_eq!(clamp_range(1, 4, 5), (1, 4));
}

#[test]
fn clamp_cuts_bounds_to_length() {
    assert_eq!(clamp_range(0, 100, 5), (0, 5));
    assert_eq!(clamp_range(7, 9, 5), (5, 5));
}

#[test]
fn clamp_raises_inverted_end_to_start() {
    assert_eq!(clamp_range(3, 1, 5), (3, 3));
    assert_eq!(clamp_range(4, 0, 10), (4, 4));
}

#[test]
fn plan_full_resolution_window() {
    assert_eq!(plan_windows(5, 5), (1, 5));
    assert_eq!(plan_windows(3, 100), (1, 3));
}

#[test]
fn plan_flooring_window() {
    assert_eq!(plan_windows(5, 2), (2, 2));
    assert_eq!(plan_windows(7, 3), (2, 3));
    assert_eq!(plan_windows(9, 2), (4, 2));
}

#[test]
fn plan_never_exceeds_range_length() {
    for total_len in 1usize..60 {
        for down_count in 1usize..70 {
            let (ws, bc) = plan_windows(total_len, down_count);
            assert!(ws >= 1);
            assert!(bc >= 1);
            assert!(bc <= total_len);
            assert!(bc * ws <= total_len);
        }
    }
}
