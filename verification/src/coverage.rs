//! The characters a face must cover to draw a piece of text.
//!
//! Coverage is a set, not a string: blanks and control characters are dropped
//! (no face maps them, so asking for them penalises every candidate alike), and
//! the rest are kept once each in ascending order, so `"88"`, `"8"` and `"8 8"`
//! all need the same face.

use vstd::prelude::*;

use crate::chars::{is_control, is_control_char, is_white_space, is_whitespace};

verus! {

/// Characters that no face is asked to cover: white space and control characters.
pub open spec fn is_blank(c: char) -> bool {
    is_white_space(c) || is_control(c)
}

/// Whether a run of characters is strictly ascending, hence free of repeats.
pub open spec fn strictly_ascending(s: Seq<char>) -> bool {
    forall|i: int, j: int| 0 <= i < j < s.len() ==> s[i] < s[j]
}

/// Whether `c` is drawn when `text` is: it occurs in `text` and is not blank.
pub open spec fn drawn_in(text: Seq<char>, c: char) -> bool {
    text.contains(c) && !is_blank(c)
}

/// Whether `s` lists exactly the drawn characters of `text`, ascending, once each.
pub open spec fn lists_coverage(s: Seq<char>, text: Seq<char>) -> bool {
    &&& strictly_ascending(s)
    &&& forall|c: char| #[trigger] s.contains(c) <==> drawn_in(text, c)
}

/// `c` placed into the ascending run `s` before the first larger character.
pub open spec fn insert_ascending(s: Seq<char>, c: char) -> Seq<char>
    decreases s.len(),
{
    if s.len() == 0 {
        seq![c]
    } else if c < s[0] {
        seq![c] + s
    } else {
        seq![s[0]] + insert_ascending(s.drop_first(), c)
    }
}

/// The coverage of `text`: its drawn characters, ascending, once each.
pub open spec fn coverage(text: Seq<char>) -> Seq<char>
    decreases text.len(),
{
    if text.len() == 0 {
        Seq::empty()
    } else {
        let rest = coverage(text.drop_last());
        let c = text.last();
        if is_blank(c) || rest.contains(c) {
            rest
        } else {
            insert_ascending(rest, c)
        }
    }
}

proof fn lemma_insert_ascending(s: Seq<char>, c: char)
    requires
        strictly_ascending(s),
        !s.contains(c),
    ensures
        strictly_ascending(insert_ascending(s, c)),
        forall|d: char| #[trigger] insert_ascending(s, c).contains(d) <==> (s.contains(d) || d == c),
    decreases s.len(),
{
    let r = insert_ascending(s, c);
    if s.len() == 0 {
        assert(r =~= seq![c]);
        assert forall|d: char| #[trigger] r.contains(d) <==> (s.contains(d) || d == c) by {
            if r.contains(d) {
                let k = choose|k: int| 0 <= k < r.len() && r[k] == d;
                assert(k == 0);
            }
            if d == c {
                assert(r[0] == d);
            }
        }
    } else if c < s[0] {
        assert forall|d: char| #[trigger] r.contains(d) <==> (s.contains(d) || d == c) by {
            if r.contains(d) {
                let k = choose|k: int| 0 <= k < r.len() && r[k] == d;
                if k > 0 {
                    assert(s[k - 1] == d);
                }
            }
            if s.contains(d) {
                let k = choose|k: int| 0 <= k < s.len() && s[k] == d;
                assert(r[k + 1] == d);
            }
            if d == c {
                assert(r[0] == d);
            }
        }
    } else {
        let t = s.drop_first();
        assert(c != s[0]) by {
            assert(s[0] == s[0]);
        }
        assert(strictly_ascending(t));
        assert(!t.contains(c)) by {
            if t.contains(c) {
                let k = choose|k: int| 0 <= k < t.len() && t[k] == c;
                assert(s[k + 1] == c);
            }
        }
        lemma_insert_ascending(t, c);
        let u = insert_ascending(t, c);
        assert(r =~= seq![s[0]] + u);
        assert forall|i: int, j: int| 0 <= i < j < r.len() implies r[i] < r[j] by {
            if i == 0 {
                assert(r[j] == u[j - 1]);
                assert(u.contains(u[j - 1]));
                if u[j - 1] == c {
                } else {
                    assert(t.contains(u[j - 1]));
                    let k = choose|k: int| 0 <= k < t.len() && t[k] == u[j - 1];
                    assert(s[k + 1] == t[k]);
                }
            }
        }
        assert forall|d: char| #[trigger] r.contains(d) <==> (s.contains(d) || d == c) by {
            if r.contains(d) {
                let k = choose|k: int| 0 <= k < r.len() && r[k] == d;
                if k > 0 {
                    assert(u[k - 1] == d);
                    assert(u.contains(d));
                    if t.contains(d) {
                        let m = choose|m: int| 0 <= m < t.len() && t[m] == d;
                        assert(s[m + 1] == d);
                    }
                } else {
                    assert(s[0] == d);
                }
            }
            if s.contains(d) {
                let k = choose|k: int| 0 <= k < s.len() && s[k] == d;
                if k == 0 {
                    assert(r[0] == d);
                } else {
                    assert(t[k - 1] == d);
                    assert(t.contains(d));
                    assert(u.contains(d));
                    let m = choose|m: int| 0 <= m < u.len() && u[m] == d;
                    assert(r[m + 1] == d);
                }
            }
            if d == c {
                assert(u.contains(d));
                let m = choose|m: int| 0 <= m < u.len() && u[m] == d;
                assert(r[m + 1] == d);
            }
        }
    }
}

/// The coverage of `text` lists exactly its drawn characters, ascending, once each.
pub proof fn lemma_coverage_lists(text: Seq<char>)
    ensures
        lists_coverage(coverage(text), text),
    decreases text.len(),
{
    if text.len() == 0 {
        assert forall|c: char| #[trigger] coverage(text).contains(c) <==> drawn_in(text, c) by {
            assert(coverage(text) =~= Seq::<char>::empty());
        }
    } else {
        let init = text.drop_last();
        let c = text.last();
        lemma_coverage_lists(init);
        let rest = coverage(init);
        assert forall|d: char| #[trigger] text.contains(d) <==> (init.contains(d) || d == c) by {
            if text.contains(d) {
                let k = choose|k: int| 0 <= k < text.len() && text[k] == d;
                if k < text.len() - 1 {
                    assert(init[k] == d);
                }
            }
            if init.contains(d) {
                let k = choose|k: int| 0 <= k < init.len() && init[k] == d;
                assert(text[k] == d);
            }
            if d == c {
                assert(text[text.len() - 1] == d);
            }
        }
        if is_blank(c) || rest.contains(c) {
        } else {
            lemma_insert_ascending(rest, c);
        }
    }
}

/// Two ascending runs with the same characters are the same run.
pub proof fn lemma_ascending_unique(a: Seq<char>, b: Seq<char>)
    requires
        strictly_ascending(a),
        strictly_ascending(b),
        forall|c: char| #![trigger a.contains(c)] #![trigger b.contains(c)]
            a.contains(c) <==> b.contains(c),
    ensures
        a == b,
    decreases a.len(),
{
    if a.len() == 0 {
        if b.len() > 0 {
            assert(b.contains(b[0]));
        }
        assert(a =~= b);
    } else {
        assert(a.contains(a[0]));
        assert(b.len() > 0);
        assert(b.contains(b[0]));
        let i = choose|i: int| 0 <= i < b.len() && b[i] == a[0];
        let j = choose|j: int| 0 <= j < a.len() && a[j] == b[0];
        assert(a[0] == b[0]) by {
            if i > 0 {
                assert(b[0] < b[i]);
            }
            if j > 0 {
                assert(a[0] < a[j]);
            }
        }
        let a1 = a.drop_first();
        let b1 = b.drop_first();
        assert forall|c: char| #![trigger a1.contains(c)] #![trigger b1.contains(c)]
            a1.contains(c) <==> b1.contains(c) by {
            if a1.contains(c) {
                let k = choose|k: int| 0 <= k < a1.len() && a1[k] == c;
                assert(a[k + 1] == c);
                assert(a.contains(c));
                let m = choose|m: int| 0 <= m < b.len() && b[m] == c;
                assert(a[0] < a[k + 1]);
                assert(m != 0);
                assert(b1[m - 1] == c);
            }
            if b1.contains(c) {
                let k = choose|k: int| 0 <= k < b1.len() && b1[k] == c;
                assert(b[k + 1] == c);
                assert(b.contains(c));
                let m = choose|m: int| 0 <= m < a.len() && a[m] == c;
                assert(b[0] < b[k + 1]);
                assert(m != 0);
                assert(a1[m - 1] == c);
            }
        }
        lemma_ascending_unique(a1, b1);
        assert(a =~= seq![a[0]] + a1);
        assert(b =~= seq![b[0]] + b1);
    }
}

/// Coverage depends only on which characters are drawn: not on their order,
/// how often they repeat, or the blanks between them.
pub proof fn lemma_coverage_ignores_order_repeats_and_blanks(t1: Seq<char>, t2: Seq<char>)
    requires
        forall|c: char| drawn_in(t1, c) <==> drawn_in(t2, c),
    ensures
        coverage(t1) == coverage(t2),
{
    lemma_coverage_lists(t1);
    lemma_coverage_lists(t2);
    lemma_ascending_unique(coverage(t1), coverage(t2));
}

/// Whether `c` is left out of coverage: white space or a control character.
pub fn is_blank_char(c: char) -> (r: bool)
    ensures
        r == is_blank(c),
{
    is_whitespace(c) || is_control_char(c)
}

/// The distinct characters a face must have a glyph for to draw `text`, ascending.
pub fn coverage_of(text: &str) -> (r: Vec<char>)
    ensures
        r@ == coverage(text@),
{
    let n = text.unicode_len();
    let mut out: Vec<char> = Vec::new();
    let mut i: usize = 0;
    while i < n
        invariant
            n == text@.len(),
            i <= n,
            lists_coverage(out@, text@.take(i as int)),
        decreases n - i,
    {
        let c = text.get_char(i);
        let ghost before = out@;
        let ghost seen = text@.take(i as int);
        let ghost next = text@.take(i + 1);
        assert(next =~= seen.push(c));
        assert forall|d: char| #[trigger] next.contains(d) <==> (seen.contains(d) || d == c) by {
            if next.contains(d) {
                let k = choose|k: int| 0 <= k < next.len() && next[k] == d;
                if k < seen.len() {
                    assert(seen[k] == d);
                }
            }
            if seen.contains(d) {
                let k = choose|k: int| 0 <= k < seen.len() && seen[k] == d;
                assert(next[k] == d);
            }
            if d == c {
                assert(next[seen.len() as int] == d);
            }
        }
        if !is_blank_char(c) {
            let len = out.len();
            let mut j: usize = 0;
            while j < len && out[j] < c
                invariant
                    len == out@.len(),
                    j <= len,
                    out@ == before,
                    forall|k: int| 0 <= k < j ==> out@[k] < c,
                decreases len - j,
            {
                j = j + 1;
            }
            if j < len && out[j] == c {
                assert(out@.contains(c));
            } else {
                out.insert(j, c);
                assert forall|a: int, b: int| 0 <= a < b < out@.len() implies out@[a] < out@[b] by {
                    if b < j {
                    } else if a > j {
                        assert(out@[a] == before[a - 1]);
                        assert(out@[b] == before[b - 1]);
                    } else if a == j {
                        assert(out@[b] == before[b - 1]);
                        assert(before[j as int] >= c);
                        assert(before[j as int] != c);
                        if b - 1 > j {
                            assert(before[j as int] < before[b - 1]);
                        }
                    } else {
                        if b == j {
                        } else {
                            assert(out@[b] == before[b - 1]);
                            assert(before[a] < before[b - 1]);
                        }
                    }
                }
                assert forall|d: char| #[trigger] out@.contains(d) <==> (before.contains(d) || d == c) by {
                    if out@.contains(d) {
                        let k = choose|k: int| 0 <= k < out@.len() && out@[k] == d;
                        if k < j {
                            assert(before[k] == d);
                        } else if k > j {
                            assert(before[k - 1] == d);
                        }
                    }
                    if before.contains(d) {
                        let k = choose|k: int| 0 <= k < before.len() && before[k] == d;
                        if k < j {
                            assert(out@[k] == d);
                        } else {
                            assert(out@[k + 1] == d);
                        }
                    }
                    if d == c {
                        assert(out@[j as int] == d);
                    }
                }
            }
        }
        i = i + 1;
    }
    assert(text@.take(n as int) =~= text@);
    proof {
        lemma_coverage_lists(text@);
        lemma_ascending_unique(out@, coverage(text@));
    }
    out
}

} // verus!
