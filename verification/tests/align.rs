use early_alloc::align::{align_down, align_up};

#[test]
fn align_down_clears_the_low_bits() {
    assert_eq!(align_down(0, 8), 0);
    assert_eq!(align_down(7, 8), 0);
    assert_eq!(align_down(8, 8), 8);
    assert_eq!(align_down(4097, 4096), 4096);
    assert_eq!(align_down(12345, 1), 12345);
    assert_eq!(align_down(usize::MAX, 2), usize::MAX - 1);
}

#[test]
fn align_up_reaches_the_next_multiple() {
    assert_eq!(align_up(0, 8), Some(0));
    assert_eq!(align_up(1, 8), Some(8));
    assert_eq!(align_up(8, 8), Some(8));
    assert_eq!(align_up(9, 8), Some(16));
    assert_eq!(align_up(4095, 4096), Some(4096));
    assert_eq!(align_up(12345, 1), Some(12345));
}

#[test]
fn align_up_reports_a_multiple_beyond_the_last_address() {
    assert_eq!(align_up(usize::MAX, 2), None);
    assert_eq!(align_up(usize::MAX - 6, 8), None);
    assert_eq!(align_up(usize::MAX - 7, 8), Some(usize::MAX - 7));
    assert_eq!(align_up(usize::MAX, 1), Some(usize::MAX));
}
