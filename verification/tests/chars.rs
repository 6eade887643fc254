use verandah_image::chars::{is_control_char, is_whitespace, to_ascii_lower, to_ascii_lowercase};
use verandah_image::coverage::is_blank_char;

#[test]
fn whitespace_matches_the_standard_library_on_every_char() {
    for code in 0..=0x10ffffu32 {
        if let Some(c) = char::from_u32(code) {
            assert_eq!(is_whitespace(c), c.is_whitespace(), "U+{code:04X}");
        }
    }
}

#[test]
fn control_matches_the_standard_library_on_every_char() {
    for code in 0..=0x10ffffu32 {
        if let Some(c) = char::from_u32(code) {
            assert_eq!(is_control_char(c), c.is_control(), "U+{code:04X}");
            assert_eq!(is_blank_char(c), c.is_whitespace() || c.is_control(), "U+{code:04X}");
        }
    }
}

#[test]
fn ascii_lowercase_matches_the_standard_library() {
    for code in 0..=0x10ffffu32 {
        if let Some(c) = char::from_u32(code) {
            assert_eq!(to_ascii_lower(c), c.to_ascii_lowercase(), "U+{code:04X}");
        }
    }
    for s in ["", "NorthEast", "ÄBC déf", "\u{212a}elvin", "MiXeD 123"] {
        assert_eq!(to_ascii_lowercase(s), s.to_ascii_lowercase());
    }
}
