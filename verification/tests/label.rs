use verandah_image::label::{blend_strip, caption_is_blank, fit_caption, LabelFit};
use verandah_image::pixels::{Rgba, RgbaImage};

fn canvas(size: u32) -> RgbaImage {
    RgbaImage::from_pixel(size, size, Rgba::new(128, 128, 128, 255))
}

#[test]
fn strip_blends_only_the_rows_from_top_down() {
    let mut icon = canvas(8);
    blend_strip(&mut icon, 6, Rgba::new(0, 0, 0, 0xa0));
    for x in 0..8 {
        assert_eq!(icon.get_pixel(x, 5), Rgba::new(128, 128, 128, 255));
        let inside = icon.get_pixel(x, 6);
        assert!(inside.r < 128 && inside.r > 0, "{inside:?}");
        assert_eq!(icon.get_pixel(x, 7), inside);
    }
}

#[test]
fn strip_below_the_image_draws_nothing() {
    let mut icon = canvas(4);
    let before = icon.to_raw();
    blend_strip(&mut icon, 4, Rgba::new(0, 0, 0, 255));
    assert_eq!(icon.to_raw(), before);
    blend_strip(&mut icon, 100, Rgba::new(0, 0, 0, 255));
    assert_eq!(icon.to_raw(), before);
}

#[test]
fn blank_captions_are_recognised() {
    for text in ["", "   ", "\t", "\u{3000}\n"] {
        assert!(caption_is_blank(text), "{text:?}");
    }
    for text in ["a", " x ", "\u{7}"] {
        assert!(!caption_is_blank(text), "{text:?}");
    }
}

/// Widths by character count, so the boundary is exact.
fn at_most(limit: usize) -> impl Fn(&str) -> bool {
    move |s: &str| s.chars().count() <= limit
}

#[test]
fn caption_that_fits_is_kept_whole() {
    assert_eq!(fit_caption("Go", &at_most(5)), ("Go".to_owned(), LabelFit::Fitted));
}

#[test]
fn caption_too_wide_is_cut_with_an_ellipsis() {
    let (caption, fit) = fit_caption("Sketcher Select", &at_most(5));
    assert_eq!(fit, LabelFit::Truncated);
    assert_eq!(caption, "Sket\u{2026}");
}

#[test]
fn cut_boundary_is_one_character_wide() {
    assert_eq!(fit_caption("WWWWW", &at_most(5)).1, LabelFit::Fitted);
    assert_eq!(fit_caption("WWWWWW", &at_most(5)), ("WWWW\u{2026}".to_owned(), LabelFit::Truncated));
}

#[test]
fn cut_keeps_whole_characters() {
    let (caption, fit) = fit_caption("ααααααααααααααααααααααααααααα", &at_most(4));
    assert_eq!(fit, LabelFit::Truncated);
    assert_eq!(caption, "ααα\u{2026}");
}

#[test]
fn nothing_fits_leaves_only_the_ellipsis() {
    assert_eq!(fit_caption("abc", &at_most(0)), ("\u{2026}".to_owned(), LabelFit::Truncated));
}

#[test]
fn truncation_stops_at_the_first_cut_that_does_not_fit() {
    // A measure that is not monotone: the first failing cut ends the search.
    let measure = |s: &str| s.chars().count() != 3 && s != "abcdef";
    assert_eq!(fit_caption("abcdef", &measure), ("a\u{2026}".to_owned(), LabelFit::Truncated));
}
