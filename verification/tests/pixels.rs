use verandah_image::pixels::{blend_over, Rgba, RgbaImage};

#[test]
fn blending_a_transparent_pixel_changes_nothing() {
    let below = Rgba::new(10, 20, 30, 255);
    assert_eq!(blend_over(below, Rgba::new(200, 200, 200, 0)), below);
}

#[test]
fn blending_an_opaque_pixel_replaces() {
    let above = Rgba::new(200, 100, 50, 255);
    assert_eq!(blend_over(Rgba::new(1, 2, 3, 4), above), above);
}

#[test]
fn blending_half_black_over_grey_darkens_without_replacing() {
    let out = blend_over(Rgba::new(128, 128, 128, 255), Rgba::new(0, 0, 0, 0xa0));
    assert!(out.r > 0 && out.r < 128, "{out:?}");
    assert!(out.a >= 254, "{out:?}");
}

#[test]
fn raw_bytes_round_trip() {
    let data: Vec<u8> = (0..24u8).collect();
    let img = RgbaImage::from_raw(3, 2, &data).expect("six pixels of four bytes");
    assert_eq!(img.width(), 3);
    assert_eq!(img.height(), 2);
    assert_eq!(img.get_pixel(1, 1), Rgba::new(16, 17, 18, 19));
    assert_eq!(img.to_raw(), data);
}

#[test]
fn raw_bytes_of_the_wrong_length_are_refused() {
    assert!(RgbaImage::from_raw(3, 2, &vec![0; 23]).is_none());
    assert!(RgbaImage::from_raw(3, 2, &vec![0; 25]).is_none());
    assert!(RgbaImage::from_raw(0, 5, &vec![]).is_some());
}

#[test]
fn put_pixel_changes_one_pixel() {
    let mut img = RgbaImage::from_pixel(4, 4, Rgba::new(0, 0, 0, 0));
    img.put_pixel(2, 3, Rgba::new(9, 9, 9, 9));
    for y in 0..4 {
        for x in 0..4 {
            let want = if (x, y) == (2, 3) { Rgba::new(9, 9, 9, 9) } else { Rgba::new(0, 0, 0, 0) };
            assert_eq!(img.get_pixel(x, y), want);
        }
    }
}
