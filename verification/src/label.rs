//! Caption composition: a text strip along the bottom edge of a key.
//!
//! How wide a piece of text is drawn depends on the face and the type size,
//! so it is measured by the caller's `fits`; which caption is drawn, and where
//! the strip goes, is decided here.

use vstd::prelude::*;

use crate::chars::{is_white_space, is_whitespace, push_char};
use crate::pixels::{blend_over, blended, lemma_index_injective, Rgba, RgbaImage};

verus! {

/// Whether the caption was drawn whole.
#[derive(Debug, Clone, Copy, PartialEq, Eq, Structural)]
pub enum LabelFit {
    Fitted,
    Truncated,
}

/// The character that marks a truncated caption.
pub const ELLIPSIS: char = '\u{2026}';

/// Whether a caption is blank: nothing but white space, so nothing to draw.
pub open spec fn is_blank_caption(text: Seq<char>) -> bool {
    forall|i: int| 0 <= i < text.len() ==> is_white_space(#[trigger] text[i])
}

/// Whether a caption is blank (`str::trim` leaves it empty).
pub fn caption_is_blank(text: &str) -> (r: bool)
    ensures
        r == is_blank_caption(text@),
{
    let n = text.unicode_len();
    let mut i: usize = 0;
    while i < n
        invariant
            n == text@.len(),
            i <= n,
            forall|j: int| 0 <= j < i ==> is_white_space(#[trigger] text@[j]),
        decreases n - i,
    {
        if !is_whitespace(text.get_char(i)) {
            return false;
        }
        i = i + 1;
    }
    true
}

/// Alpha-blends `colour` over every row from `top` to the bottom edge.
///
/// Blended rather than replaced, so a translucent strip lets the artwork show
/// through; rows above `top` are left as they were.
pub fn blend_strip(icon: &mut RgbaImage, top: u32, colour: Rgba)
    requires
        old(icon).wf(),
    ensures
        final(icon).wf(),
        final(icon).spec_width() == old(icon).spec_width(),
        final(icon).spec_height() == old(icon).spec_height(),
        forall|x: nat, y: nat| #[trigger] old(icon).contains(x, y) ==> final(icon).at(x, y) == if y >= top {
            blended(old(icon).at(x, y), colour)
        } else {
            old(icon).at(x, y)
        },
{
    let ghost start = *icon;
    let width = icon.width();
    let height = icon.height();
    let mut y: u32 = top;
    if y > height {
        y = height;
    }
    while y < height
        invariant
            icon.wf(),
            icon.spec_width() == width == start.spec_width(),
            icon.spec_height() == height == start.spec_height(),
            top <= y || y == height,
            y <= height,
            forall|xx: nat, yy: nat| #[trigger] start.contains(xx, yy) ==> icon.at(xx, yy) == if top <= yy < y {
                blended(start.at(xx, yy), colour)
            } else {
                start.at(xx, yy)
            },
        decreases height - y,
    {
        let mut x: u32 = 0;
        while x < width
            invariant
                icon.wf(),
                icon.spec_width() == width == start.spec_width(),
                icon.spec_height() == height == start.spec_height(),
                top <= y < height,
                x <= width,
                forall|xx: nat, yy: nat| #[trigger] start.contains(xx, yy) ==> icon.at(xx, yy) == if top <= yy < y
                    || (yy == y && xx < x) {
                    blended(start.at(xx, yy), colour)
                } else {
                    start.at(xx, yy)
                },
            decreases width - x,
        {
            let ghost before = *icon;
            proof {
                before.lemma_at(x as nat, y as nat);
            }
            let below = icon.get_pixel(x, y);
            icon.put_pixel(x, y, blend_over(below, colour));
            assert forall|xx: nat, yy: nat| #[trigger] start.contains(xx, yy) implies icon.at(xx, yy) == if top
                <= yy < y || (yy == y && xx < x + 1) {
                blended(start.at(xx, yy), colour)
            } else {
                start.at(xx, yy)
            } by {
                lemma_index_injective(width as nat, xx, yy, x as nat, y as nat);
                before.lemma_at(xx, yy);
                assert(before.contains(xx, yy));
            }
            x = x + 1;
        }
        y = y + 1;
    }
}

/// `s` followed by the ellipsis.
pub open spec fn with_ellipsis(s: Seq<char>) -> Seq<char> {
    s.push(ELLIPSIS)
}

/// Whether `fits` can answer `b` for the text `s`.
pub open spec fn reports<F: Fn(&str) -> bool>(fits: F, s: Seq<char>, b: bool) -> bool {
    exists|p: &str| p@ == s && #[trigger] call_ensures(fits, (p,), b)
}

/// Whether cutting `text` after `k` characters is where truncation stops:
/// each shorter cut, with the ellipsis, was found to fit, and the next one,
/// if there is one, was found not to.
pub open spec fn cut_after<F: Fn(&str) -> bool>(fits: F, text: Seq<char>, k: nat) -> bool {
    &&& k <= text.len()
    &&& forall|j: int| 0 <= j < k ==> reports(fits, with_ellipsis(#[trigger] text.take(j + 1)), true)
    &&& k < text.len() ==> reports(fits, with_ellipsis(text.take(k + 1 as int)), false)
}

/// The caption as it will be drawn: `text` itself when it fits, else the
/// longest run of its leading characters that fits with an ellipsis after it.
///
/// Characters, not bytes, are cut, so no character is ever split; and one
/// type size is kept, so a row of captions stays scannable.
pub fn fit_caption<F>(text: &str, fits: &F) -> (r: (String, LabelFit))
    where F: Fn(&str) -> bool,
    requires
        forall|p: &str| fits.requires((p,)),
    ensures
        r.1 == LabelFit::Fitted ==> r.0@ == text@ && reports(*fits, text@, true),
        r.1 == LabelFit::Truncated ==> {
            &&& reports(*fits, text@, false)
            &&& r.0@.len() >= 1
            &&& r.0@ == with_ellipsis(text@.take(r.0@.len() - 1))
            &&& cut_after(*fits, text@, (r.0@.len() - 1) as nat)
        },
{
    let whole = fits(text);
    assert(call_ensures(*fits, (text,), whole));
    if whole {
        return (String::from_str(text), LabelFit::Fitted);
    }
    let n = text.unicode_len();
    let mut kept = String::new();
    let mut i: usize = 0;
    let mut stopped = false;
    while i < n && !stopped
        invariant
            n == text@.len(),
            i <= n,
            forall|p: &str| fits.requires((p,)),
            kept@ == text@.take(i as int),
            forall|j: int| 0 <= j < i ==> reports(*fits, with_ellipsis(#[trigger] text@.take(j + 1)), true),
            stopped ==> i < n && reports(*fits, with_ellipsis(text@.take(i + 1)), false),
        decreases n - i + (if stopped { 0int } else { 1int }),
    {
        let c = text.get_char(i);
        let mut probe = kept.clone();
        push_char(&mut probe, c);
        push_char(&mut probe, ELLIPSIS);
        assert(text@.take(i + 1) =~= text@.take(i as int).push(c));
        let probe_str = probe.as_str();
        let ok = fits(probe_str);
        assert(call_ensures(*fits, (probe_str,), ok));
        if ok {
            push_char(&mut kept, c);
            i = i + 1;
        } else {
            stopped = true;
        }
    }
    let ghost k = i as nat;
    push_char(&mut kept, ELLIPSIS);
    assert(kept@.len() - 1 == k);
    (kept, LabelFit::Truncated)
}

} // verus!
