use ab_glyph::{Font, FontRef};
use verandah_image::coverage::coverage_of;
use verandah_image::face::{codepoint_name, missing_glyphs, Face};
use std::cell::Cell;
use verandah_image::font::{
    get_system_font, get_system_font_for_text, get_system_monospace_font,
    get_system_monospace_font_for_text, load_font, FontStore,
};
use verandah_image::font_cache::FaceCache;
use verandah_image::font_cache::FontKey;

/// A Nerd Font wrench, in the private use area.
const WRENCH: char = '\u{f0ad}';

fn push_u16(out: &mut Vec<u8>, v: u16) {
    out.extend_from_slice(&v.to_be_bytes());
}

fn push_u32(out: &mut Vec<u8>, v: u32) {
    out.extend_from_slice(&v.to_be_bytes());
}

/// A minimal TrueType face whose cmap maps each code point in `ranges` to a glyph.
fn synthetic_face(ranges: &[(u32, u32)]) -> Vec<u8> {
    let mut head = vec![0u8; 54];
    head[0..4].copy_from_slice(&0x0001_0000u32.to_be_bytes());
    head[12..16].copy_from_slice(&0x5F0F_3CF5u32.to_be_bytes());
    head[18..20].copy_from_slice(&1000u16.to_be_bytes());

    let mut hhea = vec![0u8; 36];
    hhea[0..4].copy_from_slice(&0x0001_0000u32.to_be_bytes());
    hhea[34..36].copy_from_slice(&1u16.to_be_bytes());

    let mut maxp = Vec::new();
    push_u32(&mut maxp, 0x0000_5000);
    push_u16(&mut maxp, 1000);

    let mut cmap = Vec::new();
    push_u16(&mut cmap, 0); // version
    push_u16(&mut cmap, 1); // one encoding record
    push_u16(&mut cmap, 3); // Windows
    push_u16(&mut cmap, 10); // full repertoire
    push_u32(&mut cmap, 12); // subtable offset
    push_u16(&mut cmap, 12); // format 12
    push_u16(&mut cmap, 0);
    push_u32(&mut cmap, 16 + 12 * ranges.len() as u32);
    push_u32(&mut cmap, 0);
    push_u32(&mut cmap, ranges.len() as u32);
    let mut glyph = 1u32;
    for &(start, end) in ranges {
        push_u32(&mut cmap, start);
        push_u32(&mut cmap, end);
        push_u32(&mut cmap, glyph);
        glyph += end - start + 1;
    }

    let tables: [(&[u8; 4], Vec<u8>); 4] = [(b"cmap", cmap), (b"head", head), (b"hhea", hhea), (b"maxp", maxp)];
    let mut out = Vec::new();
    push_u32(&mut out, 0x0001_0000);
    push_u16(&mut out, tables.len() as u16);
    push_u16(&mut out, 0);
    push_u16(&mut out, 0);
    push_u16(&mut out, 0);
    let mut offset = 12 + 16 * tables.len() as u32;
    for (tag, data) in &tables {
        out.extend_from_slice(&tag[..]);
        push_u32(&mut out, 0);
        push_u32(&mut out, offset);
        push_u32(&mut out, data.len() as u32);
        offset += data.len() as u32;
    }
    for (_, data) in &tables {
        out.extend_from_slice(data);
    }
    out
}

/// The faces of the stand-in machine: a path, the families it answers to, and what it covers.
fn installed() -> Vec<(&'static str, &'static str, Option<&'static str>, Vec<(u32, u32)>)> {
    vec![
        ("/fonts/DejaVuSans-Bold.ttf", "DejaVu Sans", Some("Bold"), vec![(0x20, 0x7e)]),
        ("/fonts/DejaVuSans.ttf", "DejaVu Sans", None, vec![(0x20, 0x7e)]),
        ("/fonts/DejaVuSansMono.ttf", "monospace", None, vec![(0x20, 0x7e), (0x3b1, 0x3c9)]),
        ("/fonts/SymbolsNerdFont.ttf", "Symbols Nerd Font", None, vec![(0xf0ad, 0xf0ad)]),
    ]
}

fn covers(ranges: &[(u32, u32)], coverage: &Vec<char>) -> bool {
    coverage
        .iter()
        .all(|&c| ranges.iter().any(|&(s, e)| s <= c as u32 && c as u32 <= e))
}

/// Stands in for fontconfig: the requested family's face when it covers the
/// text, else any installed face that does, else the requested family's face.
fn resolve(family: &str, style: Option<&str>, coverage: &Vec<char>) -> Option<(String, String)> {
    let faces = installed();
    let family = if family == "sans-serif" { "DejaVu Sans" } else { family };
    let wanted = faces
        .iter()
        .find(|f| f.1 == family && f.2 == style)
        .or_else(|| faces.iter().find(|f| f.1 == family))
        .unwrap_or(&faces[1]);
    let chosen = if covers(&wanted.3, coverage) {
        wanted
    } else {
        faces.iter().find(|f| covers(&f.3, coverage)).unwrap_or(wanted)
    };
    Some((format!("{} {}", chosen.1, chosen.2.unwrap_or("Book")), chosen.0.to_owned()))
}

/// Stands in for reading the file: a fresh copy of the face's bytes on every call.
fn read(path: &str) -> Option<Vec<u8>> {
    installed()
        .into_iter()
        .find(|f| f.0 == path)
        .map(|f| synthetic_face(&f.3))
}

fn key(family: &str, style: Option<&str>, coverage: &str) -> FontKey {
    FontKey {
        family: family.to_owned(),
        style: style.map(str::to_owned),
        coverage: coverage.to_owned(),
    }
}

#[test]
fn test_get_system_monospace_font_cached() {
    let mut store = FontStore::new();
    let font1 = get_system_monospace_font(&mut store, &resolve, &read);
    let font2 = get_system_monospace_font(&mut store, &resolve, &read);

    match (font1, font2) {
        (Some(f1), Some(f2)) => assert!(std::ptr::eq(f1.as_ptr(), f2.as_ptr())),
        (None, None) => {}
        _ => panic!("Inconsistent font caching"),
    }
}

#[test]
fn get_system_font_returns_same_slice_for_repeat_requests() {
    let mut store = FontStore::new();
    let a = get_system_font(&mut store, &resolve, &read, "sans-serif", Some("Bold"));
    let b = get_system_font(&mut store, &resolve, &read, "sans-serif", Some("Bold"));

    match (a, b) {
        (Some(a), Some(b)) => assert!(std::ptr::eq(a.as_ptr(), b.as_ptr())),
        (None, None) => {} // no fontconfig or no such face in this environment
        _ => panic!("Inconsistent font caching"),
    }
}

#[test]
fn get_system_font_keys_the_cache_on_style() -> Result<(), String> {
    let mut store = FontStore::new();
    let _ = get_system_font(&mut store, &resolve, &read, "DejaVu Sans", Some("Bold"));
    let _ = get_system_font(&mut store, &resolve, &read, "DejaVu Sans", None);

    assert!(
        store.fonts.contains(&key("DejaVu Sans", Some("Bold"), "")),
        "bold request did not create its own cache entry"
    );
    assert!(
        store.fonts.contains(&key("DejaVu Sans", None, "")),
        "unstyled request did not create its own cache entry"
    );
    Ok(())
}

#[test]
fn get_system_font_keys_the_cache_on_coverage() -> Result<(), String> {
    let mut store = FontStore::new();
    let _ = get_system_font_for_text(&mut store, &resolve, &read, "DejaVu Sans", Some("Bold"), "8");
    let _ = get_system_font_for_text(
        &mut store,
        &resolve,
        &read,
        "DejaVu Sans",
        Some("Bold"),
        &WRENCH.to_string(),
    );

    assert!(
        store.fonts.contains(&key("DejaVu Sans", Some("Bold"), "8")),
        "digit request did not create its own cache entry"
    );
    assert!(
        store.fonts.contains(&key("DejaVu Sans", Some("Bold"), &WRENCH.to_string())),
        "wrench request did not create its own cache entry"
    );
    Ok(())
}

#[test]
fn get_system_font_finds_dejavu_sans_bold() -> Result<(), String> {
    let mut store = FontStore::new();
    let bytes = get_system_font(&mut store, &resolve, &read, "DejaVu Sans", Some("Bold"))
        .ok_or("DejaVu Sans Bold must be installed: the badge is drawn with it")?;
    assert!(!bytes.is_empty(), "font file was empty");
    Ok(())
}

#[test]
fn coverage_wins_over_family_when_the_family_cannot_draw_the_text() -> Result<(), String> {
    let mut store = FontStore::new();
    let bytes = get_system_font_for_text(
        &mut store,
        &resolve,
        &read,
        "DejaVu Sans",
        Some("Bold"),
        &WRENCH.to_string(),
    )
    .ok_or("no face resolved for U+F0AD")?;
    let font = FontRef::try_from_slice(bytes).map_err(|e| format!("face failed to parse: {e}"))?;

    assert_ne!(
        font.glyph_id(WRENCH).0,
        0,
        "resolved face has no glyph for U+F0AD"
    );
    Ok(())
}

#[test]
fn coverage_leaves_the_family_alone_when_it_covers_the_text() -> Result<(), String> {
    let mut store = FontStore::new();
    let plain = get_system_font(&mut store, &resolve, &read, "DejaVu Sans", Some("Bold"))
        .ok_or("DejaVu Sans Bold must be installed")?;
    let covered = get_system_font_for_text(
        &mut store,
        &resolve,
        &read,
        "DejaVu Sans",
        Some("Bold"),
        "0123456789",
    )
    .ok_or("no face resolved for digits")?;

    assert!(
        std::ptr::eq(plain.as_ptr(), covered.as_ptr()),
        "digits resolved away from DejaVu Sans Bold"
    );
    Ok(())
}

#[test]
fn coverage_key_ignores_order_repeats_and_blanks() {
    assert_eq!(coverage_of("ab"), coverage_of("b a b\n"));
    assert!(coverage_of(" \t\n").is_empty());
}

#[test]
fn missing_glyphs_names_the_uncovered_codepoints() -> Result<(), String> {
    // An unassigned plane-16 codepoint: no font has a glyph for it.
    const UNASSIGNED: char = '\u{10fffd}';

    let mut store = FontStore::new();
    let bytes = get_system_monospace_font(&mut store, &resolve, &read)
        .ok_or("no monospace font installed")?;
    let face = Face::from_bytes(bytes).ok_or("face failed to parse")?;

    assert_eq!(
        missing_glyphs(&face, &coverage_of("a")),
        Vec::<String>::new(),
        "a covered character was reported missing"
    );
    assert_eq!(
        missing_glyphs(&face, &coverage_of(&UNASSIGNED.to_string())),
        vec!["U+10FFFD".to_owned()]
    );
    Ok(())
}

#[test]
fn synthetic_faces_parse_and_map_their_ranges() {
    let bytes = synthetic_face(&[(0x41, 0x43)]);
    let font = FontRef::try_from_slice(&bytes).expect("synthetic face must parse");
    assert_ne!(font.glyph_id('B').0, 0);
    assert_eq!(font.glyph_id('Z').0, 0);
}

#[test]
fn repeat_request_is_answered_from_the_cache_without_reading_again() {
    let reads = Cell::new(0u32);
    let counting_read = |path: &str| {
        reads.set(reads.get() + 1);
        read(path)
    };
    let mut store = FontStore::new();
    let a = get_system_font_for_text(&mut store, &resolve, &counting_read, "DejaVu Sans", None, "ab");
    let b = get_system_font_for_text(&mut store, &resolve, &counting_read, "DejaVu Sans", None, "b a b\n");
    assert!(a.is_some());
    assert!(std::ptr::eq(a.unwrap().as_ptr(), b.unwrap().as_ptr()));
    assert_eq!(reads.get(), 1);
    assert_eq!(store.fonts.len(), 1);
}

#[test]
fn requests_resolving_to_one_file_share_one_copy() {
    let mut store = FontStore::new();
    let a = get_system_monospace_font_for_text(&mut store, &resolve, &read, "abc").unwrap();
    let b = get_system_monospace_font_for_text(&mut store, &resolve, &read, "xyz").unwrap();
    assert!(std::ptr::eq(a.as_ptr(), b.as_ptr()));
    assert_eq!(store.fonts.len(), 2);
}

#[test]
fn unreadable_or_unparsable_files_give_no_face() {
    let nothing = |_: &str| -> Option<Vec<u8>> { None };
    let garbage = |_: &str| -> Option<Vec<u8>> { Some(vec![1, 2, 3]) };
    let mut store = FontStore::new();
    assert!(get_system_font(&mut store, &resolve, &nothing, "DejaVu Sans", None).is_none());
    let mut store = FontStore::new();
    assert!(get_system_font(&mut store, &resolve, &garbage, "DejaVu Sans", None).is_none());
    // The answer is remembered: a later good read is not attempted for the same request.
    assert!(get_system_font(&mut store, &resolve, &read, "DejaVu Sans", None).is_none());
}

#[test]
fn unresolvable_request_gives_no_face() {
    let none = |_: &str, _: Option<&str>, _: &Vec<char>| -> Option<(String, String)> { None };
    let mut store = FontStore::new();
    assert!(get_system_monospace_font(&mut store, &none, &read).is_none());
    assert!(store.fonts.contains(&key("monospace", None, "")));
}

#[test]
fn coverage_is_sorted_distinct_and_skips_blanks_and_controls() {
    assert_eq!(coverage_of("cab\u{7}\u{a0}ca"), vec!['a', 'b', 'c']);
    assert_eq!(coverage_of(""), Vec::<char>::new());
    assert_eq!(coverage_of("\u{3000}\u{2028}x"), vec!['x']);
}

#[test]
fn codepoints_are_named_with_at_least_four_hex_digits() {
    assert_eq!(codepoint_name('a'), "U+0061");
    assert_eq!(codepoint_name('\u{f0ad}'), "U+F0AD");
    assert_eq!(codepoint_name('\u{10fffd}'), "U+10FFFD");
    assert_eq!(codepoint_name('\0'), "U+0000");
}

#[test]
fn nul_in_family_or_style_gives_no_face_without_asking() {
    let asked = Cell::new(0u32);
    let counting_resolve = |f: &str, s: Option<&str>, c: &Vec<char>| {
        asked.set(asked.get() + 1);
        resolve(f, s, c)
    };
    let mut faces = FaceCache::new();
    let (face, missing) = load_font(&mut faces, &counting_resolve, &read, "DejaVu\0Sans", None, &vec![]);
    assert!(face.is_none());
    assert!(missing.is_empty());
    let (face, _) = load_font(&mut faces, &counting_resolve, &read, "DejaVu Sans", Some("Bo\0ld"), &vec![]);
    assert!(face.is_none());
    assert_eq!(asked.get(), 0);
    let mut store = FontStore::new();
    assert!(get_system_font(&mut store, &counting_resolve, &read, "mono\0space", None).is_none());
    assert_eq!(asked.get(), 0);
}

#[test]
fn missing_glyphs_are_reported_beside_the_face_not_instead_of_it() {
    let mut faces = FaceCache::new();
    let unassigned = vec!['a', '\u{10fffd}'];
    let (face, missing) = load_font(&mut faces, &resolve, &read, "monospace", None, &unassigned);
    let bytes = face.expect("a face covering 'a' is still handed out");
    assert!(!bytes.is_empty());
    assert_eq!(missing, vec!["U+10FFFD".to_owned()]);
}

#[test]
fn empty_files_are_no_face() {
    let empty = |_: &str| -> Option<Vec<u8>> { Some(Vec::new()) };
    let mut store = FontStore::new();
    assert!(get_system_font(&mut store, &resolve, &empty, "DejaVu Sans", None).is_none());
}
