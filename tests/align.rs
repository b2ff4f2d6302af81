use lunar::align::align_up;

#[test]
fn align_up_rounds_to_next_multiple() {
    assert_eq!(align_up(0, 4), 0);
    assert_eq!(align_up(1, 4), 4);
    assert_eq!(align_up(5, 4), 8);
    assert_eq!(align_up(8, 4), 8);
    assert_eq!(align_up(13, 8), 16);
    assert_eq!(align_up(4097, 4096), 8192);
    assert_eq!(align_up(7, 1), 7);
}

#[test]
fn align_up_is_idempotent() {
    for x in 0usize..64 {
        let once = align_up(x, 4);
        assert_eq!(align_up(once, 4), once);
        assert_eq!(once % 4, 0);
        assert!(once >= x && once < x + 4);
    }
}

#[test]
fn align_up_near_the_top_of_usize() {
    assert_eq!(align_up(usize::MAX - 3, 4), usize::MAX - 3);
    assert_eq!(align_up(usize::MAX - 6, 4), usize::MAX - 3);
}
