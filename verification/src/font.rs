//! Coverage-aware font lookup, cached.
//!
//! The characters a caller is about to draw are part of every request, and
//! the face chosen for them is the one the resolver picks for family, style
//! and coverage together. Requests are cached by family, style and coverage,
//! faces by the file they were read from, so a repeat request is answered from
//! the cache, and requests that resolve to one file share one copy of it.
//!
//! Finding the file and reading it are the caller's: `resolve` names the file
//! for a request (fontconfig, in practice) and `read` returns its bytes.

use vstd::prelude::*;

use crate::chars::{contains_char, push_char};
use crate::coverage::{coverage, coverage_of, drawn_in, lemma_coverage_ignores_order_repeats_and_blanks};
use crate::face::{accept_face, accepted, is_face, missing_glyphs, missing_labels, parses_as_face, Face};
use crate::font_cache::{face_view, FaceCache, FontCache, FontKey, KeyView};

verus! {

/// The view of an optional string slice.
pub open spec fn opt_str_view(s: Option<&str>) -> Option<Seq<char>> {
    match s {
        Some(t) => Some(t@),
        None => None,
    }
}

/// The cache key of a request: family, style, and the coverage of the text.
pub open spec fn request_key(family: Seq<char>, style: Option<Seq<char>>, text: Seq<char>) -> KeyView {
    (family, style, coverage(text))
}

/// What a read of one file ends in: nothing when it could not be read, else
/// its bytes if they are a face.
pub open spec fn read_outcome(out: Option<Vec<u8>>) -> Option<Seq<u8>> {
    match out {
        Some(bytes) => accepted(bytes@),
        None => None,
    }
}

/// Whether reading the file at `path` can end in `face`.
pub open spec fn read_gives<R: Fn(&str) -> Option<Vec<u8>>>(read: R, path: Seq<char>, face: Option<Seq<u8>>) -> bool {
    exists|p: &str, out: Option<Vec<u8>>|
        p@ == path && #[trigger] call_ensures(read, (p,), out) && read_outcome(out) == face
}

/// Whether `resolve` can name the file at `path` for a family, style and coverage.
pub open spec fn resolves_to<Q: Fn(&str, Option<&str>, &Vec<char>) -> Option<(String, String)>>(
    resolve: Q,
    family: Seq<char>,
    style: Option<Seq<char>>,
    coverage: Seq<char>,
    path: Option<Seq<char>>,
) -> bool {
    exists|f: &str, s: Option<&str>, c: Vec<char>, out: Option<(String, String)>|
        f@ == family && opt_str_view(s) == style && c@ == coverage
            && #[trigger] call_ensures(resolve, (f, s, &c), out)
            && path == match out {
                Some(found) => Some(found.1@),
                None => None,
            }
}

/// What fetching the file at `path` through the face cache does: a file read
/// before is answered from the cache; any other is read, and what the read
/// ends in is recorded and returned.
pub open spec fn fetched<R: Fn(&str) -> Option<Vec<u8>>>(
    before: Map<Seq<char>, Option<Seq<u8>>>,
    after: Map<Seq<char>, Option<Seq<u8>>>,
    read: R,
    path: Seq<char>,
    face: Option<Seq<u8>>,
) -> bool {
    if before.contains_key(path) {
        after == before && face == before[path]
    } else {
        after == before.insert(path, face) && read_gives(read, path, face)
    }
}

/// Whether a request names a family or style holding a NUL, which no font
/// source can be asked for.
pub open spec fn holds_nul(family: Seq<char>, style: Option<Seq<char>>) -> bool {
    family.contains('\0') || (style matches Some(s) && s.contains('\0'))
}

/// What loading a face for a family, style and coverage does: a request
/// holding a NUL gets no face without asking `resolve`; otherwise the resolver
/// names a file, which is fetched through the face cache, and when it names
/// none, there is no face. Either way without a face, the cache is unchanged.
pub open spec fn loaded<Q, R>(
    before: Map<Seq<char>, Option<Seq<u8>>>,
    after: Map<Seq<char>, Option<Seq<u8>>>,
    resolve: Q,
    read: R,
    family: Seq<char>,
    style: Option<Seq<char>>,
    coverage: Seq<char>,
    face: Option<Seq<u8>>,
) -> bool where Q: Fn(&str, Option<&str>, &Vec<char>) -> Option<(String, String)>, R: Fn(&str) -> Option<Vec<u8>> {
    if holds_nul(family, style) {
        after == before && face is None
    } else {
        ||| resolves_to(resolve, family, style, coverage, None) && after == before && face is None
        ||| exists|path: Seq<char>|
            resolves_to(resolve, family, style, coverage, Some(path))
                && #[trigger] fetched(before, after, read, path, face)
    }
}

/// Every face the face cache holds is a face: it parses, and is not empty.
pub open spec fn holds_only_faces(faces: Map<Seq<char>, Option<Seq<u8>>>) -> bool {
    forall|p: Seq<char>| #[trigger] faces.contains_key(p) ==> (faces[p] matches Some(b) ==> is_face(b))
}

/// Every face the request cache holds is one the face cache holds, so a face
/// is shared by every request that resolved to its file.
pub open spec fn answers_from_faces(
    fonts: Map<KeyView, Option<Seq<u8>>>,
    faces: Map<Seq<char>, Option<Seq<u8>>>,
) -> bool {
    forall|k: KeyView| #[trigger] fonts.contains_key(k) ==> (fonts[k] matches Some(b) ==>
        exists|p: Seq<char>| faces.contains_key(p) && faces[p] == Some(b))
}

/// Every request whose family or style holds a NUL is answered with no face.
pub open spec fn nul_requests_have_no_face(fonts: Map<KeyView, Option<Seq<u8>>>) -> bool {
    forall|k: KeyView| #[trigger] fonts.contains_key(k) && holds_nul(k.0, k.1) ==> fonts[k] is None
}

/// The request cache and the face cache behind font lookup.
pub struct FontStore {
    pub fonts: FontCache,
    pub faces: FaceCache,
}

impl FontStore {
    /// Both caches keep their keys distinct, hold only faces, and every
    /// answered request holds a face of the face cache.
    pub open spec fn wf(&self) -> bool {
        &&& self.fonts.wf()
        &&& self.faces.wf()
        &&& holds_only_faces(self.faces@)
        &&& answers_from_faces(self.fonts@, self.faces@)
        &&& nul_requests_have_no_face(self.fonts@)
    }

    /// A store with nothing resolved and nothing read.
    pub fn new() -> (r: FontStore)
        ensures
            r.wf(),
            r.fonts@ == Map::<KeyView, Option<Seq<u8>>>::empty(),
            r.faces@ == Map::<Seq<char>, Option<Seq<u8>>>::empty(),
    {
        FontStore { fonts: FontCache::new(), faces: FaceCache::new() }
    }
}

/// What answering a request does: a request answered before is answered from
/// the cache, changing nothing; any other is loaded, and what loading ends in
/// is recorded for the request and returned.
pub open spec fn answered<Q, R>(
    before: FontStore,
    after: FontStore,
    resolve: Q,
    read: R,
    family: Seq<char>,
    style: Option<Seq<char>>,
    text: Seq<char>,
    face: Option<Seq<u8>>,
) -> bool where Q: Fn(&str, Option<&str>, &Vec<char>) -> Option<(String, String)>, R: Fn(&str) -> Option<Vec<u8>> {
    let key = request_key(family, style, text);
    if before.fonts@.contains_key(key) {
        &&& face == before.fonts@[key]
        &&& after.fonts@ == before.fonts@
        &&& after.faces@ == before.faces@
    } else {
        &&& after.fonts@ == before.fonts@.insert(key, face)
        &&& loaded(before.faces@, after.faces@, resolve, read, family, style, coverage(text), face)
    }
}

/// The characters of `chars`, as a string.
pub fn string_of(chars: &Vec<char>) -> (r: String)
    ensures
        r@ == chars@,
{
    let mut out = String::new();
    let n = chars.len();
    let mut i: usize = 0;
    while i < n
        invariant
            n == chars@.len(),
            i <= n,
            out@ == chars@.take(i as int),
        decreases n - i,
    {
        push_char(&mut out, chars[i]);
        assert(chars@.take(i + 1) =~= chars@.take(i as int).push(chars@[i as int]));
        i = i + 1;
    }
    assert(chars@.take(n as int) =~= chars@);
    out
}

/// The cache key of a request, with the coverage it was built from.
pub fn font_key(family: &str, style: Option<&str>, text: &str) -> (r: (FontKey, Vec<char>))
    ensures
        r.0@ == request_key(family@, opt_str_view(style), text@),
        r.1@ == coverage(text@),
{
    let cov = coverage_of(text);
    let style_owned = match style {
        Some(s) => Some(String::from_str(s)),
        None => None,
    };
    let key = FontKey { family: String::from_str(family), style: style_owned, coverage: string_of(&cov) };
    (key, cov)
}

/// The face in the file at `path`, read once per file: a file read before is
/// answered from `faces`; any other is read with `read`, kept if its bytes are
/// a face, and recorded either way.
pub fn read_face<R>(faces: &mut FaceCache, read: &R, path: &str) -> (r: Option<&'static [u8]>)
    where R: Fn(&str) -> Option<Vec<u8>>,
    requires
        old(faces).wf(),
        forall|p: &str| read.requires((p,)),
    ensures
        final(faces).wf(),
        fetched(old(faces)@, final(faces)@, *read, path@, face_view(r)),
{
    match faces.lookup(path) {
        Some(hit) => hit,
        None => {
            let out = read(path);
            let loaded = match out {
                Some(bytes) => accept_face(bytes),
                None => None,
            };
            assert(call_ensures(*read, (path,), out));
            assert(read_outcome(out) == face_view(loaded));
            faces.settle(path, loaded)
        }
    }
}

/// The labels of the characters of `coverage` that the face `face` has no
/// glyph for; nothing when there is no face.
pub open spec fn reported_missing(face: Option<Seq<u8>>, coverage: Seq<char>) -> Seq<Seq<char>> {
    match face {
        Some(b) => missing_labels(b, coverage),
        None => Seq::empty(),
    }
}

/// The face that `resolve` picks for `family`, `style` and `coverage`, read
/// through the face cache, with the characters of `coverage` it has no glyph
/// for, each named `U+XXXX`.
///
/// A family or style holding a NUL gets no face, and `resolve` is not asked.
/// Glyphs the face lacks never reject it: they are reported beside it, so
/// the caller can say which characters will draw as an empty box.
pub fn load_font<Q, R>(
    faces: &mut FaceCache,
    resolve: &Q,
    read: &R,
    family: &str,
    style: Option<&str>,
    coverage: &Vec<char>,
) -> (r: (Option<&'static [u8]>, Vec<String>))
    where Q: Fn(&str, Option<&str>, &Vec<char>) -> Option<(String, String)>, R: Fn(&str) -> Option<Vec<u8>>,
    requires
        old(faces).wf(),
        holds_only_faces(old(faces)@),
        forall|f: &str, s: Option<&str>, c: &Vec<char>| resolve.requires((f, s, c)),
        forall|p: &str| read.requires((p,)),
    ensures
        final(faces).wf(),
        holds_only_faces(final(faces)@),
        loaded(old(faces)@, final(faces)@, *resolve, *read, family@, opt_str_view(style), coverage@, face_view(r.0)),
        r.0 matches Some(bytes) ==> is_face(bytes@),
        r.1@.map_values(|s: String| s@) == reported_missing(face_view(r.0), coverage@),
{
    let nul_in_style = match style {
        Some(s) => contains_char(s, '\0'),
        None => false,
    };
    if contains_char(family, '\0') || nul_in_style {
        assert(Seq::<String>::empty().map_values(|s: String| s@) =~= Seq::<Seq<char>>::empty());
        return (None, Vec::new());
    }
    let ghost before = faces@;
    let found = resolve(family, style, coverage);
    assert(call_ensures(*resolve, (family, style, coverage), found));
    let face = match found {
        None => {
            assert(resolves_to(*resolve, family@, opt_str_view(style), coverage@, None));
            None
        },
        Some((_name, path)) => {
            assert(resolves_to(*resolve, family@, opt_str_view(style), coverage@, Some(path@)));
            let r = read_face(faces, read, path.as_str());
            assert(fetched(before, faces@, *read, path@, face_view(r)));
            proof {
                assert forall|p: Seq<char>| #[trigger] faces@.contains_key(p) implies
                    (faces@[p] matches Some(b) ==> is_face(b)) by {
                    if before.contains_key(p) {
                        assert(faces@[p] == before[p]);
                    } else {
                        assert(p == path@);
                        assert(read_gives(*read, path@, face_view(r)));
                    }
                }
                if r is Some {
                    if before.contains_key(path@) {
                        assert(faces@.contains_key(path@));
                    } else {
                        assert(read_gives(*read, path@, face_view(r)));
                    }
                }
            }
            r
        },
    };
    let missing = match face {
        Some(bytes) => match Face::from_bytes(bytes) {
            Some(parsed) => missing_glyphs(&parsed, coverage),
            None => Vec::new(),
        },
        None => {
            assert(Seq::<String>::empty().map_values(|s: String| s@) =~= Seq::<Seq<char>>::empty());
            Vec::new()
        },
    };
    (face, missing)
}

/// Missing glyphs never reject a face: when the resolver can only name
/// `path`, the file was not read before, and reading it can only give the
/// face `b`, loading gives `b`, whatever glyphs `b` lacks.
pub proof fn lemma_missing_glyphs_never_reject_a_face<Q, R>(
    before: Map<Seq<char>, Option<Seq<u8>>>,
    after: Map<Seq<char>, Option<Seq<u8>>>,
    resolve: Q,
    read: R,
    family: Seq<char>,
    style: Option<Seq<char>>,
    coverage: Seq<char>,
    face: Option<Seq<u8>>,
    path: Seq<char>,
    b: Seq<u8>,
)
    where Q: Fn(&str, Option<&str>, &Vec<char>) -> Option<(String, String)>, R: Fn(&str) -> Option<Vec<u8>>,
    requires
        loaded(before, after, resolve, read, family, style, coverage, face),
        !holds_nul(family, style),
        forall|named: Option<Seq<char>>| resolves_to(resolve, family, style, coverage, named) ==> named == Some(path),
        !before.contains_key(path),
        forall|f: Option<Seq<u8>>| read_gives(read, path, f) ==> f == Some(b),
    ensures
        face == Some(b),
{
    if resolves_to(resolve, family, style, coverage, None) {
        assert(None::<Seq<char>> == Some(path));
    } else {
        let p = choose|p: Seq<char>|
            resolves_to(resolve, family, style, coverage, Some(p)) && #[trigger] fetched(before, after, read, p, face);
        assert(Some(p) == Some(path));
        assert(read_gives(read, path, face));
    }
}

/// A request whose family or style holds a NUL gets no face, and leaves the
/// face cache as it was.
pub proof fn lemma_nul_request_gets_no_face<Q, R>(
    before: Map<Seq<char>, Option<Seq<u8>>>,
    after: Map<Seq<char>, Option<Seq<u8>>>,
    resolve: Q,
    read: R,
    family: Seq<char>,
    style: Option<Seq<char>>,
    coverage: Seq<char>,
    face: Option<Seq<u8>>,
)
    where Q: Fn(&str, Option<&str>, &Vec<char>) -> Option<(String, String)>, R: Fn(&str) -> Option<Vec<u8>>,
    requires
        loaded(before, after, resolve, read, family, style, coverage, face),
        holds_nul(family, style),
    ensures
        face is None,
        after == before,
{
}

/// Whether `resolve` may be asked about any request and `read` about any file.
pub open spec fn callable<Q, R>(resolve: Q, read: R) -> bool
    where Q: Fn(&str, Option<&str>, &Vec<char>) -> Option<(String, String)>, R: Fn(&str) -> Option<Vec<u8>>,
{
    &&& forall|f: &str, s: Option<&str>, c: &Vec<char>| resolve.requires((f, s, c))
    &&& forall|p: &str| read.requires((p,))
}

/// A face for `family` and `style` that covers `text`, cached for reuse.
///
/// The request is keyed by family, style and the coverage of `text`, so texts
/// drawn from the same characters share one entry. A request answered before
/// is answered from the cache; any other is loaded, and the answer, a face or
/// none, is recorded for it. Every face handed out parses as a face.
pub fn get_system_font_for_text<Q, R>(
    store: &mut FontStore,
    resolve: &Q,
    read: &R,
    family: &str,
    style: Option<&str>,
    text: &str,
) -> (r: Option<&'static [u8]>)
    where Q: Fn(&str, Option<&str>, &Vec<char>) -> Option<(String, String)>, R: Fn(&str) -> Option<Vec<u8>>,
    requires
        old(store).wf(),
        callable(*resolve, *read),
    ensures
        final(store).wf(),
        answered(*old(store), *final(store), *resolve, *read, family@, opt_str_view(style), text@, face_view(r)),
        holds_nul(family@, opt_str_view(style)) ==> r is None,
        r matches Some(bytes) ==> parses_as_face(bytes@) && bytes@.len() > 0,
{
    let (key, cov) = font_key(family, style, text);
    let ghost k = key@;
    match store.fonts.lookup(&key) {
        Some(hit) => {
            proof {
                if hit is Some {
                    let p = choose|p: Seq<char>| store.faces@.contains_key(p) && store.faces@[p] == face_view(hit);
                    assert(store.faces@.contains_key(p));
                }
            }
            hit
        },
        None => {
            let ghost faces_before = store.faces@;
            let ghost fonts_before = store.fonts@;
            let (loaded, _missing) = load_font(&mut store.faces, resolve, read, family, style, &cov);
            let ghost faces_after = store.faces@;
            let ghost path = choose|path: Seq<char>|
                resolves_to(*resolve, family@, opt_str_view(style), cov@, Some(path))
                    && #[trigger] fetched(faces_before, faces_after, *read, path, face_view(loaded));
            proof {
                let via_path = resolves_to(*resolve, family@, opt_str_view(style), cov@, Some(path))
                    && fetched(faces_before, faces_after, *read, path, face_view(loaded));
                assert(faces_before.submap_of(faces_after));
                assert forall|p: Seq<char>| #[trigger] faces_after.contains_key(p) implies
                    (faces_after[p] matches Some(b) ==> is_face(b)) by {
                    if faces_before.contains_key(p) {
                        assert(faces_after[p] == faces_before[p]);
                    } else {
                        assert(via_path);
                        assert(p == path);
                        assert(read_gives(*read, path, face_view(loaded)));
                    }
                }
                if loaded is Some {
                    assert(via_path);
                    assert(faces_after.contains_key(path) && faces_after[path] == face_view(loaded));
                }
            }
            let r = store.fonts.settle(key, loaded);
            proof {
                assert forall|q: KeyView| #[trigger] store.fonts@.contains_key(q) implies
                    (store.fonts@[q] matches Some(b) ==>
                        exists|p: Seq<char>| store.faces@.contains_key(p) && store.faces@[p] == Some(b)) by {
                    if q == k {
                        if loaded is Some {
                            assert(store.faces@.contains_key(path));
                        }
                    } else {
                        assert(fonts_before.contains_key(q));
                        if fonts_before[q] is Some {
                            let p = choose|p: Seq<char>| faces_before.contains_key(p)
                                && faces_before[p] == fonts_before[q];
                            assert(store.faces@.contains_key(p));
                        }
                    }
                }
            }
            r
        },
    }
}

/// A face for `family` and `style`, cached for reuse. No particular coverage
/// is asked for, so a face without the glyphs the caller needs is a valid
/// answer; prefer `get_system_font_for_text` when the text is known.
pub fn get_system_font<Q, R>(
    store: &mut FontStore,
    resolve: &Q,
    read: &R,
    family: &str,
    style: Option<&str>,
) -> (r: Option<&'static [u8]>)
    where Q: Fn(&str, Option<&str>, &Vec<char>) -> Option<(String, String)>, R: Fn(&str) -> Option<Vec<u8>>,
    requires
        old(store).wf(),
        callable(*resolve, *read),
    ensures
        final(store).wf(),
        answered(*old(store), *final(store), *resolve, *read, family@, opt_str_view(style), Seq::empty(), face_view(r)),
        holds_nul(family@, opt_str_view(style)) ==> r is None,
        r matches Some(bytes) ==> parses_as_face(bytes@) && bytes@.len() > 0,
{
    let r = get_system_font_for_text(store, resolve, read, family, style, "");
    proof {
        assert(""@ =~= Seq::<char>::empty()) by {
            reveal_strlit("");
        }
    }
    r
}

/// The system monospace face, cached for reuse; it asks for no particular
/// coverage, so prefer `get_system_monospace_font_for_text` when the text is known.
pub fn get_system_monospace_font<Q, R>(store: &mut FontStore, resolve: &Q, read: &R) -> (r: Option<&'static [u8]>)
    where Q: Fn(&str, Option<&str>, &Vec<char>) -> Option<(String, String)>, R: Fn(&str) -> Option<Vec<u8>>,
    requires
        old(store).wf(),
        callable(*resolve, *read),
    ensures
        final(store).wf(),
        answered(*old(store), *final(store), *resolve, *read, "monospace"@, None, Seq::empty(), face_view(r)),
        r matches Some(bytes) ==> parses_as_face(bytes@) && bytes@.len() > 0,
{
    get_system_font(store, resolve, read, "monospace", None)
}

/// A system monospace face that covers `text`, cached for reuse.
pub fn get_system_monospace_font_for_text<Q, R>(
    store: &mut FontStore,
    resolve: &Q,
    read: &R,
    text: &str,
) -> (r: Option<&'static [u8]>)
    where Q: Fn(&str, Option<&str>, &Vec<char>) -> Option<(String, String)>, R: Fn(&str) -> Option<Vec<u8>>,
    requires
        old(store).wf(),
        callable(*resolve, *read),
    ensures
        final(store).wf(),
        answered(*old(store), *final(store), *resolve, *read, "monospace"@, None, text@, face_view(r)),
        r matches Some(bytes) ==> parses_as_face(bytes@) && bytes@.len() > 0,
{
    get_system_font_for_text(store, resolve, read, "monospace", None, text)
}

/// An answered request stays answered: its key is in the request cache with
/// the face it was answered with, and every earlier answer is kept.
pub proof fn lemma_answer_is_recorded<Q, R>(
    before: FontStore,
    after: FontStore,
    resolve: Q,
    read: R,
    family: Seq<char>,
    style: Option<Seq<char>>,
    text: Seq<char>,
    face: Option<Seq<u8>>,
)
    where Q: Fn(&str, Option<&str>, &Vec<char>) -> Option<(String, String)>, R: Fn(&str) -> Option<Vec<u8>>,
    requires
        answered(before, after, resolve, read, family, style, text, face),
    ensures
        after.fonts@.contains_key(request_key(family, style, text)),
        after.fonts@[request_key(family, style, text)] == face,
        before.fonts@.submap_of(after.fonts@),
{
}

/// A repeated request is answered from the cache: the same face as the first
/// time, with neither cache changed.
pub proof fn lemma_repeat_request_is_cached<Q, R>(
    s0: FontStore,
    s1: FontStore,
    s2: FontStore,
    resolve: Q,
    read: R,
    family: Seq<char>,
    style: Option<Seq<char>>,
    text: Seq<char>,
    first: Option<Seq<u8>>,
    second: Option<Seq<u8>>,
)
    where Q: Fn(&str, Option<&str>, &Vec<char>) -> Option<(String, String)>, R: Fn(&str) -> Option<Vec<u8>>,
    requires
        answered(s0, s1, resolve, read, family, style, text, first),
        answered(s1, s2, resolve, read, family, style, text, second),
    ensures
        second == first,
        s2.fonts@ == s1.fonts@,
        s2.faces@ == s1.faces@,
{
}

/// A file is read once: fetching it again gives the face kept the first
/// time, with the face cache unchanged, so every request that resolves to the
/// file shares one copy of its bytes.
pub proof fn lemma_file_is_read_once<R: Fn(&str) -> Option<Vec<u8>>>(
    f0: Map<Seq<char>, Option<Seq<u8>>>,
    f1: Map<Seq<char>, Option<Seq<u8>>>,
    f2: Map<Seq<char>, Option<Seq<u8>>>,
    read: R,
    path: Seq<char>,
    first: Option<Seq<u8>>,
    second: Option<Seq<u8>>,
)
    requires
        fetched(f0, f1, read, path, first),
        fetched(f1, f2, read, path, second),
    ensures
        second == first,
        f2 == f1,
{
}

/// Texts drawn from the same characters, whatever their order, repeats and
/// blanks, are one request: once either is answered, the other gets the same
/// face from the cache, with neither cache changed.
pub proof fn lemma_same_characters_share_an_answer<Q, R>(
    s0: FontStore,
    s1: FontStore,
    s2: FontStore,
    resolve: Q,
    read: R,
    family: Seq<char>,
    style: Option<Seq<char>>,
    t1: Seq<char>,
    t2: Seq<char>,
    first: Option<Seq<u8>>,
    second: Option<Seq<u8>>,
)
    where Q: Fn(&str, Option<&str>, &Vec<char>) -> Option<(String, String)>, R: Fn(&str) -> Option<Vec<u8>>,
    requires
        forall|c: char| drawn_in(t1, c) <==> drawn_in(t2, c),
        answered(s0, s1, resolve, read, family, style, t1, first),
        answered(s1, s2, resolve, read, family, style, t2, second),
    ensures
        second == first,
        s2.fonts@ == s1.fonts@,
        s2.faces@ == s1.faces@,
{
    lemma_coverage_ignores_order_repeats_and_blanks(t1, t2);
}

} // verus!
