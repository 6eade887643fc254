use verandah_image::background::{apply_plate, apply_tint_plate};
use verandah_image::pixels::{Rgba, RgbaImage};

/// A plate covering the square `lo..hi`, fully opaque inside and at half alpha on its border.
fn square(lo: u32, hi: u32, alpha: u8) -> impl Fn(u32, u32) -> Option<u8> {
    move |x, y| {
        if x < lo || y < lo || x >= hi || y >= hi {
            None
        } else if x == lo || y == lo || x == hi - 1 || y == hi - 1 {
            Some(alpha / 2)
        } else {
            Some(alpha)
        }
    }
}

#[test]
fn plate_under_transparent_artwork_is_the_plate_colour() {
    let mut icon = RgbaImage::from_pixel(12, 12, Rgba::new(0, 0, 0, 0));
    apply_plate(&mut icon, Rgba::new(0x2f, 0x7f, 0x86, 0xff), &square(1, 11, 255));
    assert_eq!(icon.get_pixel(6, 6), Rgba::new(0x2f, 0x7f, 0x86, 0xff));
    assert_eq!(icon.get_pixel(0, 0), Rgba::new(0, 0, 0, 0));
    let edge = icon.get_pixel(1, 6);
    assert!(edge.a > 0 && edge.a < 255, "{edge:?}");
}

#[test]
fn plate_leaves_opaque_artwork_intact() {
    let mut icon = RgbaImage::from_pixel(12, 12, Rgba::new(200, 10, 10, 255));
    apply_plate(&mut icon, Rgba::new(0x2f, 0x7f, 0x86, 0xff), &square(1, 11, 255));
    assert_eq!(icon.get_pixel(6, 6), Rgba::new(200, 10, 10, 255));
}

#[test]
fn transparent_plate_colour_changes_no_pixel() {
    let mut icon = RgbaImage::from_pixel(8, 8, Rgba::new(10, 20, 30, 128));
    let before = icon.to_raw();
    apply_plate(&mut icon, Rgba::new(255, 255, 255, 0), &square(0, 8, 255));
    assert_eq!(icon.to_raw(), before);
}

#[test]
fn tint_lightens_without_replacing() {
    let mut image = RgbaImage::from_pixel(12, 12, Rgba::new(0, 0, 0, 255));
    apply_tint_plate(&mut image, Rgba::new(255, 255, 255, 255), &square(1, 11, 115));
    let centre = image.get_pixel(6, 6).r;
    assert!(centre > 0, "tint did not lighten black artwork");
    assert!(centre < 255, "tint replaced the artwork instead of blending");
    assert_eq!(image.get_pixel(0, 0), Rgba::new(0, 0, 0, 255));
}

#[test]
fn tint_at_zero_alpha_changes_no_pixel() {
    let mut image = RgbaImage::from_pixel(8, 8, Rgba::new(10, 20, 30, 255));
    let before = image.to_raw();
    apply_tint_plate(&mut image, Rgba::new(255, 255, 255, 255), &square(0, 8, 0));
    assert_eq!(image.to_raw(), before);
}
