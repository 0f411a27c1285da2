use image_diff::color::Rgb;
use image_diff::raster::RawImage;

fn px(v: u8) -> Rgb {
    Rgb { r: v, g: v.wrapping_add(1), b: v.wrapping_add(2) }
}

fn numbered(width: u32, height: u32) -> RawImage {
    let pixels: Vec<Rgb> = (0..width * height).map(|i| px((i * 3) as u8)).collect();
    RawImage::from_pixels(width, height, &pixels).unwrap()
}

#[test]
fn new_wants_three_bytes_for_each_pixel() {
    assert!(RawImage::new(2, 2, vec![0; 12]).is_some());
    assert!(RawImage::new(2, 2, vec![0; 11]).is_none());
    assert!(RawImage::new(2, 2, vec![0; 13]).is_none());
    assert!(RawImage::new(0, 7, vec![]).is_some());
    assert!(RawImage::from_pixels(2, 3, &vec![px(0); 5]).is_none());
}

#[test]
fn pixel_reads_rows_from_the_top() {
    let img = RawImage::new(2, 2, vec![1, 2, 3, 4, 5, 6, 7, 8, 9, 10, 11, 12]).unwrap();
    assert_eq!(img.pixel(0, 0), Rgb { r: 1, g: 2, b: 3 });
    assert_eq!(img.pixel(1, 0), Rgb { r: 4, g: 5, b: 6 });
    assert_eq!(img.pixel(0, 1), Rgb { r: 7, g: 8, b: 9 });
    assert_eq!(img.pixel(1, 1), Rgb { r: 10, g: 11, b: 12 });
    assert_eq!((img.width(), img.height()), (2, 2));
    assert_eq!(img.data().len(), 12);
}

#[test]
fn region_and_crop_take_the_masked_part() {
    let img = numbered(4, 3);
    let part = img.region((1, 1, 2, 2));
    assert_eq!(part, vec![img.pixel(1, 1), img.pixel(2, 1), img.pixel(1, 2), img.pixel(2, 2)]);
    let cut = img.crop((1, 1, 2, 2));
    assert_eq!((cut.width(), cut.height()), (2, 2));
    assert_eq!(cut.pixels(), part);
    assert_eq!(img.pixels().len(), 12);
    assert!(img.region((4, 3, 0, 0)).is_empty());
}

#[test]
fn scaling_halves_a_quartered_image() {
    let (a, b, c, d) = (px(10), px(60), px(120), px(200));
    let pixels = vec![a, a, b, b, a, a, b, b, c, c, d, d, c, c, d, d];
    let img = RawImage::from_pixels(4, 4, &pixels).unwrap();
    let tile = img.scaled_to_fill(2).unwrap();
    assert_eq!((tile.width(), tile.height()), (2, 2));
    assert_eq!(tile.pixels(), vec![a, b, c, d]);
}

#[test]
fn scaling_cuts_off_what_hangs_over() {
    let red = Rgb { r: 255, g: 0, b: 0 };
    let blue = Rgb { r: 0, g: 0, b: 255 };
    let img = RawImage::from_pixels(2, 1, &vec![red, blue]).unwrap();
    let tile = img.scaled_to_fill(1).unwrap();
    assert_eq!((tile.width(), tile.height()), (1, 1));
    assert_eq!(tile.pixels(), vec![red]);
}

#[test]
fn scaling_a_fitting_image_changes_nothing() {
    let img = numbered(3, 3);
    let tile = img.scaled_to_fill(3).unwrap();
    assert_eq!(tile.data(), img.data());
}

#[test]
fn scaling_refuses_empty_and_oversized() {
    assert!(RawImage::new(0, 5, vec![]).unwrap().scaled_to_fill(4).is_none());
    assert!(RawImage::new(5, 0, vec![]).unwrap().scaled_to_fill(4).is_none());
    assert!(numbered(2, 2).scaled_to_fill(0).is_none());
    assert!(numbered(2, 2).scaled_to_fill(u32::MAX).is_none());
}

#[test]
fn a_frame_gives_up_its_fourth_byte_and_its_padding() {
    // two rows of two pixels, blue first, each row padded to ten bytes
    let frame = vec![
        3, 2, 1, 255, 6, 5, 4, 255, 0, 0, //
        9, 8, 7, 255, 12, 11, 10, 255, 0, 0,
    ];
    let img = RawImage::from_bgra(2, 2, &frame).unwrap();
    assert_eq!(img.data(), &vec![1, 2, 3, 4, 5, 6, 7, 8, 9, 10, 11, 12]);
    assert!(RawImage::from_bgra(3, 2, &frame).is_none());
    assert!(RawImage::from_bgra(0, 2, &frame).is_some());
    assert!(RawImage::from_bgra(2, 0, &frame).is_some());
}

#[test]
fn paste_covers_the_mask_and_nothing_else() {
    let base = RawImage::blank(3, 3).unwrap();
    assert!(base.data().iter().all(|&b| b == 0));
    let tile = numbered(2, 2);
    let out = base.paste((1, 1, 2, 1), &tile);
    assert_eq!((out.width(), out.height()), (3, 3));
    let black = Rgb { r: 0, g: 0, b: 0 };
    assert_eq!(
        out.pixels(),
        vec![black, black, black, black, tile.pixel(0, 0), tile.pixel(1, 0), black, black, black]
    );
}
