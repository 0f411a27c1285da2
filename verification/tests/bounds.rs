use image_diff::bounds::{root_ceil, root_floor, FAR};

#[test]
fn roots_of_squares_and_their_neighbours() {
    for r in [0u32, 1, 2, 3, 10, 255, 256, 441, 4096, 65535] {
        let sq = r * r;
        assert_eq!(root_floor(sq), r);
        assert_eq!(root_ceil(sq), r);
        if r > 1 {
            assert_eq!(root_floor(sq - 1), r - 1);
            assert_eq!(root_ceil(sq - 1), r);
            assert_eq!(root_floor(sq + 1), r);
            assert_eq!(root_ceil(sq + 1), r + 1);
        }
    }
}

#[test]
fn roots_at_the_ends() {
    assert_eq!(root_floor(0), 0);
    assert_eq!(root_ceil(0), 0);
    assert_eq!(root_floor(u32::MAX), 65535);
    assert_eq!(root_ceil(u32::MAX), FAR);
    assert_eq!(root_floor(2), 1);
    assert_eq!(root_ceil(2), 2);
}
