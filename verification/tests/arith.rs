use krapslog::arith::{scale_ceil, scale_floor};

#[test]
fn scale_floor_rounds_down() {
    assert_eq!(scale_floor(0, 80, 549), 0);
    assert_eq!(scale_floor(61, 80, 549), 8);
    assert_eq!(scale_floor(549, 80, 549), 80);
    assert_eq!(scale_floor(1, 3, 2), 1);
    assert_eq!(scale_floor(u64::MAX, usize::MAX, u64::MAX), usize::MAX);
    assert_eq!(scale_floor(u64::MAX - 1, usize::MAX, u64::MAX), usize::MAX - 1);
}

#[test]
fn scale_ceil_rounds_up() {
    assert_eq!(scale_ceil(0, 78, 3), 0);
    assert_eq!(scale_ceil(1, 78, 3), 26);
    assert_eq!(scale_ceil(1, 3, 2), 2);
    assert_eq!(scale_ceil(2, 10, 3), 7);
    assert_eq!(scale_ceil(3, 10, 3), 10);
    assert_eq!(scale_ceil(usize::MAX - 1, usize::MAX, usize::MAX), usize::MAX - 1);
}
