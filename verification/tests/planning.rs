use framepick::plan::plan;
use framepick::ExtractError;

#[test]
fn plan_valid_request_is_ascending_distinct_in_range() {
    let total: u64 = 10;
    let n: usize = 4;
    let v = plan(total, n).unwrap();
    assert_eq!(v.len(), n);
    for i in 0..v.len() {
        assert!(v[i] < total);
        if i > 0 {
            assert!(v[i - 1] < v[i]);
        }
    }
    assert_eq!(v, vec![0, 3, 6, 9]);
}

#[test]
fn plan_single_frame_is_midpoint() {
    assert_eq!(plan(60, 1).unwrap(), vec![30]);
    assert_eq!(plan(7, 1).unwrap(), vec![3]);
    assert_eq!(plan(1, 1).unwrap(), vec![0]);
}

#[test]
fn plan_endpoints_are_first_and_last_frame() {
    let v = plan(100, 5).unwrap();
    assert_eq!(v[0], 0);
    assert_eq!(v[4], 99);
    let w = plan(2, 2).unwrap();
    assert_eq!(w, vec![0, 1]);
}

#[test]
fn plan_formula_values() {
    // floor(i * (total - 1) / (n - 1)) for total = 100, n = 5
    assert_eq!(plan(100, 5).unwrap(), vec![0, 24, 49, 74, 99]);
    // a spread where the divisions are exact
    assert_eq!(plan(101, 5).unwrap(), vec![0, 25, 50, 75, 100]);
}

#[test]
fn plan_rejects_oversized_request() {
    assert_eq!(
        plan(4, 5),
        Err(ExtractError::InsufficientFrames { requested: 5, available: 4 })
    );
    assert_eq!(
        plan(0, 1),
        Err(ExtractError::InsufficientFrames { requested: 1, available: 0 })
    );
}

#[test]
fn plan_rejects_zero_request() {
    assert_eq!(plan(100, 0), Err(ExtractError::ZeroFramesRequested));
    assert_eq!(plan(0, 0), Err(ExtractError::ZeroFramesRequested));
}

#[test]
fn plan_near_equal_counts_keeps_endpoints() {
    // n == total: every frame is planned exactly once
    assert_eq!(plan(5, 5).unwrap(), vec![0, 1, 2, 3, 4]);
}

#[test]
fn plan_large_counts_do_not_overflow() {
    let total = u64::MAX;
    let v = plan(total, 3).unwrap();
    assert_eq!(v[0], 0);
    assert_eq!(v[1], (total - 1) / 2);
    assert_eq!(v[2], total - 1);
}
