//! Parsed faces: which bytes are a face at all, and which characters a face
//! can draw.

use vstd::prelude::*;

use ab_glyph::{Font, FontRef};

use crate::chars::push_char;
use crate::font_cache::face_view;

verus! {

#[verifier::external_type_specification]
#[verifier::external_body]
pub struct ExFontRef<'font>(FontRef<'font>);

/// Whether `bytes` parse as a face (what `ab_glyph::FontRef::try_from_slice`
/// decides from the bytes alone).
pub uninterp spec fn parses_as_face(bytes: Seq<u8>) -> bool;

/// The glyph that the face in `face` maps `c` to; `0` is `.notdef`, the
/// empty box drawn for a character the face has no glyph for (what
/// `ab_glyph::Font::glyph_id` returns on the parsed face).
pub uninterp spec fn glyph_index(face: Seq<u8>, c: char) -> u16;

/// A face together with the bytes it was parsed from.
///
/// The only way to make one is `Face::from_bytes`, so `font` is always the
/// face parsed from `bytes`.
pub struct Face {
    bytes: &'static [u8],
    font: FontRef<'static>,
}

/// `Vec::leak`: hands the bytes out for the rest of the process.
#[verifier::external_body]
fn leak_bytes(bytes: Vec<u8>) -> (r: &'static [u8])
    ensures
        r@ == bytes@,
{
    bytes.leak()
}

impl Face {
    /// The bytes the face was parsed from.
    pub closed spec fn view(&self) -> Seq<u8> {
        self.bytes@
    }

    /// `ab_glyph::FontRef::try_from_slice`: parses `bytes` as a face, keeping
    /// the bytes beside it. The contract claims that parsing succeeds exactly
    /// when the bytes are a face, as `parses_as_face` names it, and that a face
    /// is never empty (the parser reads a header before anything else).
    #[verifier::external_body]
    fn parse(bytes: &'static [u8]) -> (r: Option<Face>)
        ensures
            r is Some <==> parses_as_face(bytes@),
            r is Some ==> bytes@.len() > 0,
            r matches Some(face) ==> face@ == bytes@,
    {
        FontRef::try_from_slice(bytes).ok().map(|font| Face { bytes, font })
    }

    /// `ab_glyph::Font::glyph_id` on the parsed face: the glyph `c` maps to.
    /// The contract claims that this is `glyph_index` of the face's bytes,
    /// which holds because the face was parsed from exactly those bytes.
    #[verifier::external_body]
    fn glyph_id(&self, c: char) -> (r: u16)
        ensures
            r == glyph_index(self@, c),
    {
        self.font.glyph_id(c).0
    }

    /// The face in `bytes`, or `None` when they are not a face.
    pub fn from_bytes(bytes: &'static [u8]) -> (r: Option<Face>)
        ensures
            r is Some <==> parses_as_face(bytes@),
            r is Some ==> bytes@.len() > 0,
            r matches Some(face) ==> face@ == bytes@,
    {
        Face::parse(bytes)
    }

    /// The bytes the face was parsed from.
    pub fn bytes(&self) -> (r: &'static [u8])
        ensures
            r@ == self@,
    {
        self.bytes
    }

    /// Whether the face has a glyph of its own for `c` rather than `.notdef`.
    pub fn covers(&self, c: char) -> (r: bool)
        ensures
            r == (glyph_index(self@, c) != 0),
    {
        self.glyph_id(c) != 0
    }
}

/// Whether `bytes` are a face: they parse as one, and so are not empty.
pub open spec fn is_face(bytes: Seq<u8>) -> bool {
    parses_as_face(bytes) && bytes.len() > 0
}

/// What reading a file ends in: its bytes when they are a face, else nothing.
pub open spec fn accepted(bytes: Seq<u8>) -> Option<Seq<u8>> {
    if is_face(bytes) {
        Some(bytes)
    } else {
        None
    }
}

/// Keeps the bytes read from a file for the rest of the process if they are a
/// face; a face that will not parse is no face, so a caller's own fallback can
/// take over instead of being handed bytes it can only reject.
pub fn accept_face(bytes: Vec<u8>) -> (r: Option<&'static [u8]>)
    ensures
        face_view(r) == accepted(bytes@),
{
    let kept = leak_bytes(bytes);
    match Face::parse(kept) {
        Some(_) => Some(kept),
        None => None,
    }
}

/// The upper-case hexadecimal digit for `d`, which is below 16.
pub open spec fn hex_digit(d: nat) -> char {
    if d < 10 {
        (('0' as nat) + d) as char
    } else {
        (('A' as nat) + d - 10) as char
    }
}

/// `n` in upper-case hexadecimal, without leading zeros.
pub open spec fn hex_digits(n: nat) -> Seq<char>
    decreases n,
{
    if n < 16 {
        seq![hex_digit(n)]
    } else {
        hex_digits(n / 16).push(hex_digit(n % 16))
    }
}

/// `n` in upper-case hexadecimal, zero-padded to at least four digits (`{:04X}`).
pub open spec fn hex4(n: nat) -> Seq<char> {
    let d = hex_digits(n);
    if d.len() < 4 {
        Seq::new((4 - d.len()) as nat, |i: int| '0') + d
    } else {
        d
    }
}

/// How a code point is named in diagnostics: `U+` and at least four hex digits.
pub open spec fn codepoint_label(c: char) -> Seq<char> {
    "U+"@ + hex4(c as nat)
}

proof fn lemma_hex_len(n: nat)
    ensures
        n < 16 ==> hex_digits(n).len() == 1,
        16 <= n < 256 ==> hex_digits(n).len() == 2,
        256 <= n < 4096 ==> hex_digits(n).len() == 3,
        4096 <= n ==> hex_digits(n).len() >= 4,
    decreases n,
{
    if n >= 16 {
        lemma_hex_len(n / 16);
    }
}

fn hex_char(d: u32) -> (r: char)
    requires
        d < 16,
    ensures
        r == hex_digit(d as nat),
{
    if d < 10 {
        let b: u8 = 48 + d as u8;
        b as char
    } else {
        let b: u8 = 55 + d as u8;
        b as char
    }
}

fn push_hex(out: &mut String, n: u32)
    ensures
        final(out)@ == old(out)@ + hex_digits(n as nat),
    decreases n,
{
    if n >= 16 {
        push_hex(out, n / 16);
    }
    push_char(out, hex_char(n % 16));
    proof {
        if n >= 16 {
            assert(hex_digits(n as nat) == hex_digits((n / 16) as nat).push(hex_digit((n % 16) as nat)));
        }
    }
}

/// `U+` followed by the code point of `c` in upper-case hex, at least four digits.
pub fn codepoint_name(c: char) -> (r: String)
    ensures
        r@ == codepoint_label(c),
{
    let n: u32 = c as u32;
    proof {
        lemma_hex_len(n as nat);
    }
    let mut out = String::from_str("U+");
    if n < 0x10 {
        push_char(&mut out, '0');
        push_char(&mut out, '0');
        push_char(&mut out, '0');
    } else if n < 0x100 {
        push_char(&mut out, '0');
        push_char(&mut out, '0');
    } else if n < 0x1000 {
        push_char(&mut out, '0');
    }
    push_hex(&mut out, n);
    assert(out@ =~= codepoint_label(c));
    out
}

/// The labels of the characters of `coverage`, in order, that `face` has no glyph for.
pub open spec fn missing_labels(face: Seq<u8>, coverage: Seq<char>) -> Seq<Seq<char>>
    decreases coverage.len(),
{
    if coverage.len() == 0 {
        Seq::empty()
    } else {
        let rest = missing_labels(face, coverage.drop_last());
        let c = coverage.last();
        if glyph_index(face, c) == 0 {
            rest.push(codepoint_label(c))
        } else {
            rest
        }
    }
}

/// How many characters of `coverage` the face in `face` has no glyph for.
pub open spec fn uncovered_count(face: Seq<u8>, coverage: Seq<char>) -> nat
    decreases coverage.len(),
{
    if coverage.len() == 0 {
        0
    } else {
        uncovered_count(face, coverage.drop_last()) + if glyph_index(face, coverage.last()) == 0 {
            1nat
        } else {
            0nat
        }
    }
}

/// Whether `label` names a character of `coverage` that the face in `face`
/// has no glyph for.
pub open spec fn is_uncovered_label(face: Seq<u8>, coverage: Seq<char>, label: Seq<char>) -> bool {
    exists|c: char| coverage.contains(c) && glyph_index(face, c) == 0 && label == codepoint_label(c)
}

/// The missing-glyph report names exactly the uncovered characters: every
/// character of `coverage` the face has no glyph for is named, every name is
/// that of such a character, and there is one name per such character.
pub proof fn lemma_report_names_exactly_the_uncovered(face: Seq<u8>, coverage: Seq<char>)
    ensures
        missing_labels(face, coverage).len() == uncovered_count(face, coverage),
        forall|c: char| #[trigger] coverage.contains(c) && glyph_index(face, c) == 0
            ==> missing_labels(face, coverage).contains(codepoint_label(c)),
        forall|i: int| 0 <= i < missing_labels(face, coverage).len() ==> #[trigger] is_uncovered_label(
            face,
            coverage,
            missing_labels(face, coverage)[i],
        ),
    decreases coverage.len(),
{
    if coverage.len() > 0 {
        let init = coverage.drop_last();
        let last = coverage.last();
        lemma_report_names_exactly_the_uncovered(face, init);
        let rest = missing_labels(face, init);
        let all = missing_labels(face, coverage);
        assert forall|c: char| #[trigger] coverage.contains(c) && glyph_index(face, c) == 0
            implies all.contains(codepoint_label(c)) by {
            let k = choose|k: int| 0 <= k < coverage.len() && coverage[k] == c;
            if k < coverage.len() - 1 {
                assert(init[k] == c);
                assert(init.contains(c));
                assert(rest.contains(codepoint_label(c)));
                let m = choose|m: int| 0 <= m < rest.len() && rest[m] == codepoint_label(c);
                if glyph_index(face, last) == 0 {
                    assert(all[m] == rest[m]);
                }
            } else {
                assert(c == last);
                assert(all[all.len() - 1] == codepoint_label(c));
            }
        }
        assert forall|i: int| 0 <= i < all.len() implies #[trigger] is_uncovered_label(face, coverage, all[i]) by {
            if i < rest.len() {
                assert(all[i] == rest[i]);
                assert(is_uncovered_label(face, init, rest[i]));
                let c = choose|c: char| init.contains(c) && glyph_index(face, c) == 0 && rest[i]
                    == codepoint_label(c);
                let k = choose|k: int| 0 <= k < init.len() && init[k] == c;
                assert(coverage[k] == c);
                assert(coverage.contains(c));
            } else {
                assert(coverage[coverage.len() - 1] == last);
                assert(coverage.contains(last));
                assert(all[i] == codepoint_label(last));
            }
        }
    }
}

/// The characters of `coverage` that `face` draws as `.notdef`, each named `U+XXXX`.
pub fn missing_glyphs(face: &Face, coverage: &Vec<char>) -> (r: Vec<String>)
    ensures
        r@.map_values(|s: String| s@) == missing_labels(face@, coverage@),
{
    let n = coverage.len();
    let mut out: Vec<String> = Vec::new();
    let mut i: usize = 0;
    while i < n
        invariant
            n == coverage@.len(),
            i <= n,
            out@.map_values(|s: String| s@) == missing_labels(face@, coverage@.take(i as int)),
        decreases n - i,
    {
        let c = coverage[i];
        assert(coverage@.take(i + 1).drop_last() =~= coverage@.take(i as int));
        if !face.covers(c) {
            let label = codepoint_name(c);
            let ghost before = out@;
            out.push(label);
            assert(out@.map_values(|s: String| s@) =~= before.map_values(|s: String| s@).push(label@));
        }
        i = i + 1;
    }
    assert(coverage@.take(n as int) =~= coverage@);
    out
}

} // verus!
