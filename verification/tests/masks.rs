use image_diff::engine::ProcessWrapper;

#[test]
fn four_tiles_of_fifty() {
    let masks = ProcessWrapper::mask(50, 100, 100);
    assert_eq!(
        masks,
        vec![(0, 0, 50, 50), (50, 0, 50, 50), (0, 50, 50, 50), (50, 50, 50, 50)]
    );
}

#[test]
fn last_column_and_row_are_clipped() {
    let masks = ProcessWrapper::mask(4, 10, 5);
    assert_eq!(
        masks,
        vec![(0, 0, 4, 4), (4, 0, 4, 4), (8, 0, 2, 4), (0, 4, 4, 1), (4, 4, 4, 1), (8, 4, 2, 1)]
    );
}

#[test]
fn masks_tile_without_gap_or_overlap() {
    for (size, width, height) in [(3u32, 7u32, 5u32), (1, 4, 4), (10, 3, 2), (5, 5, 5), (4, 9, 1)] {
        let masks = ProcessWrapper::mask(size, width, height);
        let mut seen = vec![0u32; (width * height) as usize];
        for (x, y, w, h) in masks {
            assert!(w > 0 && w <= size && h > 0 && h <= size);
            for j in y..y + h {
                for i in x..x + w {
                    seen[(j * width + i) as usize] += 1;
                }
            }
        }
        assert!(seen.iter().all(|&n| n == 1));
    }
}

#[test]
fn an_empty_image_has_no_mask() {
    assert!(ProcessWrapper::mask(8, 0, 5).is_empty());
    assert!(ProcessWrapper::mask(8, 5, 0).is_empty());
}

#[test]
fn a_huge_image_does_not_overflow() {
    let masks = ProcessWrapper::mask(u32::MAX, u32::MAX, 1);
    assert_eq!(masks, vec![(0, 0, u32::MAX, 1)]);
    let masks = ProcessWrapper::mask(u32::MAX - 1, u32::MAX, 1);
    assert_eq!(masks, vec![(0, 0, u32::MAX - 1, 1), (u32::MAX - 1, 0, 1, 1)]);
}
