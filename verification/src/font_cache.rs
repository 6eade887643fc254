//! The two caches behind font lookup.
//!
//! Requests are cached by family, style and coverage, so a repeat request is
//! answered without asking fontconfig again; faces are cached by the file they
//! were read from, so distinct requests that resolve to one file share one
//! copy of its bytes. Each cache is an association list whose keys are kept
//! distinct, so it reads as a finite map.

use vstd::prelude::*;

verus! {

/// What a cache holds for a key: a face's bytes, or the knowledge that there is none.
pub open spec fn face_view(face: Option<&'static [u8]>) -> Option<Seq<u8>> {
    match face {
        Some(bytes) => Some(bytes@),
        None => None,
    }
}

/// The map an association list denotes; later entries win, though with
/// distinct keys no entry is ever overridden.
pub open spec fn map_of<K, V>(entries: Seq<(K, V)>) -> Map<K, V>
    decreases entries.len(),
{
    if entries.len() == 0 {
        Map::empty()
    } else {
        map_of(entries.drop_last()).insert(entries.last().0, entries.last().1)
    }
}

/// Whether no key occurs twice in an association list.
pub open spec fn keys_distinct<K, V>(entries: Seq<(K, V)>) -> bool {
    forall|i: int, j: int| 0 <= i < j < entries.len() ==> entries[i].0 != entries[j].0
}

/// A key is in the map exactly when some entry carries it, and with distinct
/// keys the map gives that entry's value.
pub proof fn lemma_map_of_lookup<K, V>(entries: Seq<(K, V)>, i: int)
    requires
        keys_distinct(entries),
        0 <= i < entries.len(),
    ensures
        map_of(entries).contains_key(entries[i].0),
        map_of(entries)[entries[i].0] == entries[i].1,
    decreases entries.len(),
{
    let init = entries.drop_last();
    if i == entries.len() - 1 {
    } else {
        assert(init[i] == entries[i]);
        assert(keys_distinct(init));
        lemma_map_of_lookup(init, i);
        assert(entries[i].0 != entries.last().0);
    }
}

/// A key that no entry carries is not in the map.
pub proof fn lemma_map_of_absent<K, V>(entries: Seq<(K, V)>, k: K)
    requires
        forall|i: int| 0 <= i < entries.len() ==> entries[i].0 != k,
    ensures
        !map_of(entries).contains_key(k),
    decreases entries.len(),
{
    if entries.len() > 0 {
        let init = entries.drop_last();
        assert forall|i: int| 0 <= i < init.len() implies init[i].0 != k by {
            assert(init[i] == entries[i]);
        }
        lemma_map_of_absent(init, k);
    }
}

/// The view of one request: family, optional style, and coverage.
pub type KeyView = (Seq<char>, Option<Seq<char>>, Seq<char>);

/// The view of an optional string.
pub open spec fn opt_string_view(s: Option<String>) -> Option<Seq<char>> {
    match s {
        Some(t) => Some(t@),
        None => None,
    }
}

/// A cached request: the family asked for, the style if any, and the
/// coverage as a string of distinct characters in ascending order.
pub struct FontKey {
    pub family: String,
    pub style: Option<String>,
    pub coverage: String,
}

impl View for FontKey {
    type V = KeyView;

    open spec fn view(&self) -> KeyView {
        (self.family@, opt_string_view(self.style), self.coverage@)
    }
}

/// Whether two optional strings are equal.
fn same_opt_string(a: &Option<String>, b: &Option<String>) -> (r: bool)
    ensures
        r == (opt_string_view(*a) == opt_string_view(*b)),
{
    match (a, b) {
        (Some(x), Some(y)) => *x == *y,
        (None, None) => true,
        _ => false,
    }
}

impl FontKey {
    /// Whether two keys name the same request.
    pub fn same_as(&self, other: &FontKey) -> (r: bool)
        ensures
            r == (self@ == other@),
    {
        self.family == other.family && same_opt_string(&self.style, &other.style)
            && self.coverage == other.coverage
    }
}

/// Requests already resolved, keyed by family, style and coverage.
pub struct FontCache {
    entries: Vec<(FontKey, Option<&'static [u8]>)>,
}

impl FontCache {
    /// The entries, each key and face by its view.
    pub closed spec fn entries_view(&self) -> Seq<(KeyView, Option<Seq<u8>>)> {
        self.entries@.map_values(|e: (FontKey, Option<&'static [u8]>)| (e.0@, face_view(e.1)))
    }

    /// No request is recorded twice.
    pub closed spec fn wf(&self) -> bool {
        keys_distinct(self.entries_view())
    }

    /// The resolved requests, as a map from request to face.
    pub closed spec fn view(&self) -> Map<KeyView, Option<Seq<u8>>> {
        map_of(self.entries_view())
    }

    /// An empty cache.
    pub fn new() -> (r: FontCache)
        ensures
            r.wf(),
            r@ == Map::<KeyView, Option<Seq<u8>>>::empty(),
    {
        let r = FontCache { entries: Vec::new() };
        assert(r.entries_view() =~= Seq::empty());
        r
    }

    /// The number of resolved requests.
    pub fn len(&self) -> (r: usize)
        requires
            self.wf(),
        ensures
            r == self@.len(),
    {
        proof {
            self.lemma_len();
        }
        self.entries.len()
    }

    proof fn lemma_len(&self)
        requires
            self.wf(),
        ensures
            self@.len() == self.entries@.len(),
            self@.dom().finite(),
    {
        lemma_map_of_len(self.entries_view());
    }

    /// What the cache holds for `key`, if the request was resolved before.
    pub fn lookup(&self, key: &FontKey) -> (r: Option<Option<&'static [u8]>>)
        requires
            self.wf(),
        ensures
            r matches Some(face) ==> self@.contains_key(key@) && self@[key@] == face_view(face),
            r is None ==> !self@.contains_key(key@),
    {
        let n = self.entries.len();
        let mut i: usize = 0;
        while i < n
            invariant
                n == self.entries@.len(),
                i <= n,
                self.wf(),
                forall|j: int| 0 <= j < i ==> self.entries_view()[j].0 != key@,
            decreases n - i,
        {
            if self.entries[i].0.same_as(key) {
                proof {
                    lemma_map_of_lookup(self.entries_view(), i as int);
                }
                return Some(self.entries[i].1);
            }
            i = i + 1;
        }
        proof {
            lemma_map_of_absent(self.entries_view(), key@);
        }
        None
    }

    /// Whether the request `key` has been resolved.
    pub fn contains(&self, key: &FontKey) -> (r: bool)
        requires
            self.wf(),
        ensures
            r == self@.contains_key(key@),
    {
        self.lookup(key).is_some()
    }

    /// Records `loaded` for `key` unless an answer is already recorded, and
    /// returns whatever the cache settles on, so that every caller holding
    /// the same key holds the same face.
    pub fn settle(&mut self, key: FontKey, loaded: Option<&'static [u8]>) -> (r: Option<&'static [u8]>)
        requires
            old(self).wf(),
        ensures
            final(self).wf(),
            old(self)@.contains_key(key@) ==> final(self)@ == old(self)@ && face_view(r) == old(self)@[key@],
            !old(self)@.contains_key(key@) ==> final(self)@ == old(self)@.insert(key@, face_view(loaded))
                && r == loaded,
    {
        match self.lookup(&key) {
            Some(existing) => existing,
            None => {
                let ghost before = self.entries_view();
                let ghost k = key@;
                self.entries.push((key, loaded));
                assert(self.entries_view() =~= before.push((k, face_view(loaded))));
                assert(self.entries_view().drop_last() =~= before);
                proof {
                    assert forall|i: int| 0 <= i < before.len() implies before[i].0 != k by {
                        if before[i].0 == k {
                            lemma_map_of_lookup(before, i);
                        }
                    }
                }
                loaded
            }
        }
    }
}

/// With distinct keys, the map has one key per entry.
pub proof fn lemma_map_of_len<K, V>(entries: Seq<(K, V)>)
    requires
        keys_distinct(entries),
    ensures
        map_of(entries).dom().finite(),
        map_of(entries).len() == entries.len(),
    decreases entries.len(),
{
    if entries.len() > 0 {
        let init = entries.drop_last();
        assert(keys_distinct(init)) by {
            assert forall|i: int, j: int| 0 <= i < j < init.len() implies init[i].0 != init[j].0 by {
                assert(init[i] == entries[i]);
                assert(init[j] == entries[j]);
            }
        }
        lemma_map_of_len(init);
        assert forall|i: int| 0 <= i < init.len() implies init[i].0 != entries.last().0 by {
            assert(init[i] == entries[i]);
        }
        lemma_map_of_absent(init, entries.last().0);
    }
}

/// Faces already read, keyed by the file they were read from.
pub struct FaceCache {
    entries: Vec<(String, Option<&'static [u8]>)>,
}

impl FaceCache {
    /// The entries, each path and face by its view.
    pub closed spec fn entries_view(&self) -> Seq<(Seq<char>, Option<Seq<u8>>)> {
        self.entries@.map_values(|e: (String, Option<&'static [u8]>)| (e.0@, face_view(e.1)))
    }

    /// No file is recorded twice.
    pub closed spec fn wf(&self) -> bool {
        keys_distinct(self.entries_view())
    }

    /// The files read so far, as a map from path to face.
    pub closed spec fn view(&self) -> Map<Seq<char>, Option<Seq<u8>>> {
        map_of(self.entries_view())
    }

    /// An empty cache.
    pub fn new() -> (r: FaceCache)
        ensures
            r.wf(),
            r@ == Map::<Seq<char>, Option<Seq<u8>>>::empty(),
    {
        let r = FaceCache { entries: Vec::new() };
        assert(r.entries_view() =~= Seq::empty());
        r
    }

    /// What the cache holds for the file at `path`, if it was read before.
    pub fn lookup(&self, path: &str) -> (r: Option<Option<&'static [u8]>>)
        requires
            self.wf(),
        ensures
            r matches Some(face) ==> self@.contains_key(path@) && self@[path@] == face_view(face),
            r is None ==> !self@.contains_key(path@),
    {
        let wanted = String::from_str(path);
        let n = self.entries.len();
        let mut i: usize = 0;
        while i < n
            invariant
                n == self.entries@.len(),
                i <= n,
                self.wf(),
                wanted@ == path@,
                forall|j: int| 0 <= j < i ==> self.entries_view()[j].0 != path@,
            decreases n - i,
        {
            if self.entries[i].0 == wanted {
                proof {
                    lemma_map_of_lookup(self.entries_view(), i as int);
                }
                return Some(self.entries[i].1);
            }
            i = i + 1;
        }
        proof {
            lemma_map_of_absent(self.entries_view(), path@);
        }
        None
    }

    /// Records `loaded` for `path` unless a face is already recorded, and
    /// returns whatever the cache settles on.
    pub fn settle(&mut self, path: &str, loaded: Option<&'static [u8]>) -> (r: Option<&'static [u8]>)
        requires
            old(self).wf(),
        ensures
            final(self).wf(),
            old(self)@.contains_key(path@) ==> final(self)@ == old(self)@ && face_view(r) == old(self)@[path@],
            !old(self)@.contains_key(path@) ==> final(self)@ == old(self)@.insert(path@, face_view(loaded))
                && r == loaded,
    {
        match self.lookup(path) {
            Some(existing) => existing,
            None => {
                let ghost before = self.entries_view();
                let key = String::from_str(path);
                self.entries.push((key, loaded));
                assert(self.entries_view() =~= before.push((path@, face_view(loaded))));
                assert(self.entries_view().drop_last() =~= before);
                proof {
                    assert forall|i: int| 0 <= i < before.len() implies before[i].0 != path@ by {
                        if before[i].0 == path@ {
                            lemma_map_of_lookup(before, i);
                        }
                    }
                }
                loaded
            }
        }
    }
}

} // verus!
