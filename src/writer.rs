//! Regeneration-safe file writer: reconciles freshly rendered text with the
//! content already at a destination path, guided by two sentinel markers.
use vstd::prelude::*;
use crate::text::{chars_of, contains, find, is_first_occurrence, occurs_at, push_chars};

verus! {

/// A file holding this text is never overwritten or deleted.
pub const STATIC_MARKER: &'static str = "libninja: static";

/// In a file holding this text, only what precedes its first occurrence is
/// regenerated; what follows it is kept verbatim.
pub const AFTER_MARKER: &'static str = "libninja: after";

pub open spec fn static_marker() -> Seq<char> {
    STATIC_MARKER@
}

pub open spec fn after_marker() -> Seq<char> {
    AFTER_MARKER@
}

/// The first position of the after-marker in `s` (meaningful when it occurs).
pub open spec fn after_pos(s: Seq<char>) -> int {
    choose|i: int| is_first_occurrence(s, after_marker(), i)
}

/// The hand-written region of `s`: everything after the first after-marker.
pub open spec fn preserved_suffix(s: Seq<char>) -> Seq<char> {
    s.subrange(after_pos(s) + after_marker().len(), s.len() as int)
}

/// What the writer puts at a path whose current content is `existing`, when
/// the freshly rendered text is `code`; `None` means the file is left alone.
pub open spec fn merged(existing: Seq<char>, code: Seq<char>) -> Option<Seq<char>> {
    if contains(existing, static_marker()) {
        None
    } else if contains(existing, after_marker()) {
        Some(code + after_marker() + preserved_suffix(existing))
    } else {
        Some(code)
    }
}

/// The content of the file after one write of `code` over `existing`.
pub open spec fn content_after(existing: Seq<char>, code: Seq<char>) -> Seq<char> {
    match merged(existing, code) {
        Some(c) => c,
        None => existing,
    }
}

proof fn lemma_first_occurrence_unique(s: Seq<char>, m: Seq<char>, i: int, j: int)
    requires
        is_first_occurrence(s, m, i),
        is_first_occurrence(s, m, j),
    ensures
        i == j,
{
    if i < j {
        assert(!occurs_at(s, m, i));
    } else if j < i {
        assert(!occurs_at(s, m, j));
    }
}

/// The after-marker position is the found first occurrence.
pub(crate) proof fn lemma_after_pos(s: Seq<char>, i: int)
    requires
        is_first_occurrence(s, after_marker(), i),
    ensures
        after_pos(s) == i,
{
    let p = after_pos(s);
    assert(is_first_occurrence(s, after_marker(), p));
    lemma_first_occurrence_unique(s, after_marker(), i, p);
}

/// The set of destination paths touched during one run.
pub struct Modified {
    paths: Vec<String>,
}

impl View for Modified {
    type V = Set<Seq<char>>;

    closed spec fn view(&self) -> Set<Seq<char>> {
        Set::new(|p: Seq<char>| exists|i: int| 0 <= i < self.paths@.len() && self.paths@[i]@ == p)
    }
}

impl Modified {
    /// An empty set.
    pub fn new() -> (r: Modified)
        ensures
            r@ == Set::<Seq<char>>::empty(),
    {
        let r = Modified { paths: Vec::new() };
        assert(r@ =~= Set::<Seq<char>>::empty());
        r
    }

    /// Whether `path` was touched.
    pub fn contains(&self, path: &str) -> (r: bool)
        ensures
            r == self@.contains(path@),
    {
        let owned = path.to_owned();
        let mut i: usize = 0;
        while i < self.paths.len()
            invariant
                owned@ == path@,
                i <= self.paths@.len(),
                forall|j: int| 0 <= j < i ==> self.paths@[j]@ != path@,
            decreases self.paths@.len() - i,
        {
            if self.paths[i] == owned {
                return true;
            }
            i = i + 1;
        }
        false
    }

    /// Records `path` as touched.
    pub fn insert(&mut self, path: &str)
        ensures
            final(self)@ == old(self)@.insert(path@),
    {
        if !self.contains(path) {
            self.paths.push(path.to_owned());
        }
        assert forall|p: Seq<char>| #[trigger] final(self)@.contains(p) == old(self)@.insert(path@).contains(p) by {
            if p == path@ && !old(self)@.contains(p) {
                assert(self.paths@[self.paths@.len() - 1]@ == p);
            }
            if final(self)@.contains(p) && p != path@ {
                let i = choose|i: int| 0 <= i < self.paths@.len() && self.paths@[i]@ == p;
                assert(old(self).paths@[i]@ == p);
            }
            if old(self)@.contains(p) {
                let i = choose|i: int| 0 <= i < old(self).paths@.len() && old(self).paths@[i]@ == p;
                assert(self.paths@[i]@ == p);
            }
        }
        assert(final(self)@ =~= old(self)@.insert(path@));
    }

    /// The touched paths, each once.
    pub fn paths(&self) -> (r: Vec<String>)
        ensures
            forall|p: Seq<char>| self@.contains(p) <==> exists|i: int| 0 <= i < r@.len() && r@[i]@ == p,
    {
        self.paths.clone()
    }
}

/// The characters of `e` from position `p + n` on.
fn chars_after(e: &Vec<char>, p: usize, n: usize) -> (r: Vec<char>)
    requires
        p + n <= e@.len(),
    ensures
        r@ == e@.subrange(p + n, e@.len() as int),
{
    let elen = e.len();
    assert(p + n <= elen);
    let start = p + n;
    let mut suffix: Vec<char> = Vec::new();
    let mut i: usize = start;
    while i < e.len()
        invariant
            start <= i <= e@.len(),
            suffix@ == e@.subrange(start as int, i as int),
        decreases e@.len() - i,
    {
        suffix.push(e[i]);
        assert(suffix@ =~= e@.subrange(start as int, i + 1));
        i = i + 1;
    }
    suffix
}

/// The hand-written region of `existing`, where it holds the after-marker.
pub fn preserved_region(existing: &str) -> (r: Option<Vec<char>>)
    ensures
        r is Some <==> contains(existing@, after_marker()),
        r matches Some(v) ==> v@ == preserved_suffix(existing@),
{
    let e = chars_of(existing);
    let a_marker = chars_of(AFTER_MARKER);
    match find(&e, &a_marker) {
        Some(p) => {
            proof {
                lemma_after_pos(existing@, p as int);
                assert(occurs_at(e@, a_marker@, p as int));
            }
            let elen = e.len();
            assert(p + a_marker@.len() <= elen);
            Some(chars_after(&e, p, a_marker.len()))
        },
        None => None,
    }
}

/// The text to write over `existing` for freshly rendered `code`, or `None`
/// where the file is protected by the static marker.
pub fn merge(existing: &str, code: &str) -> (r: Option<String>)
    ensures
        r matches Some(s) ==> merged(existing@, code@) == Some(s@),
        r is None <==> merged(existing@, code@) is None,
{
    let e = chars_of(existing);
    let s_marker = chars_of(STATIC_MARKER);
    let a_marker = chars_of(AFTER_MARKER);
    if find(&e, &s_marker).is_some() {
        return None;
    }
    match find(&e, &a_marker) {
        Some(p) => {
            proof {
                lemma_after_pos(existing@, p as int);
                assert(occurs_at(e@, a_marker@, p as int));
            }
            let elen = e.len();
            assert(p + a_marker@.len() <= elen);
            let suffix = chars_after(&e, p, a_marker.len());
            assert(suffix@ =~= preserved_suffix(existing@));
            let mut out = code.to_owned();
            push_chars(&mut out, &a_marker);
            push_chars(&mut out, &suffix);
            Some(out)
        },
        None => Some(code.to_owned()),
    }
}

/// Writes `code` over `content`, the current content of `path`: records
/// `path` in `modified` whatever happens, and returns the text to write, or
/// `None` where the file is to be left alone.
pub fn write_with_content(path: &str, code: &str, content: &str, modified: &mut Modified) -> (r: Option<String>)
    ensures
        final(modified)@ == old(modified)@.insert(path@),
        r matches Some(s) ==> merged(content@, code@) == Some(s@),
        r is None <==> merged(content@, code@) is None,
{
    modified.insert(path);
    merge(content, code)
}

/// The two markers are distinct texts that start with the only `'l'` each holds.
proof fn lemma_marker_chars()
    ensures
        after_marker().len() == 15,
        static_marker().len() == 16,
        after_marker()[0] == 'l',
        static_marker()[0] == 'l',
        forall|k: int| 1 <= k < 15 ==> after_marker()[k] != 'l',
        forall|k: int| 1 <= k < 16 ==> static_marker()[k] != 'l',
        after_marker()[10] != static_marker()[10],
{
    reveal_strlit("libninja: after");
    reveal_strlit("libninja: static");
}

/// In `code + after-marker + suffix`, where `code` holds no marker, the first
/// after-marker is the one that follows `code`, and the static marker occurs
/// only where it occurs in `suffix`.
pub(crate) proof fn lemma_regenerated_layout(code: Seq<char>, suffix: Seq<char>)
    requires
        !contains(code, static_marker()),
        !contains(code, after_marker()),
    ensures
        is_first_occurrence(code + after_marker() + suffix, after_marker(), code.len() as int),
        contains(code + after_marker() + suffix, static_marker()) ==> contains(suffix, static_marker()),
{
    lemma_marker_chars();
    let a = after_marker();
    let m = static_marker();
    let out = code + a + suffix;
    let n = code.len() as int;
    assert(out.subrange(n, n + 15) =~= a);
    assert(out[n] == 'l');
    assert forall|j: int| 0 <= j < n implies !occurs_at(out, a, j) by {
        if occurs_at(out, a, j) {
            if j + 15 <= n {
                assert(code.subrange(j, j + 15) =~= out.subrange(j, j + 15));
                assert(occurs_at(code, a, j));
            } else {
                assert(out.subrange(j, j + 15)[n - j] == out[n]);
            }
        }
    }
    if contains(out, m) {
        let j = choose|j: int| occurs_at(out, m, j);
        if j + 16 <= n {
            assert(code.subrange(j, j + 16) =~= out.subrange(j, j + 16));
            assert(occurs_at(code, m, j));
        } else if j < n {
            assert(out.subrange(j, j + 16)[n - j] == out[n]);
        } else if j == n {
            assert(out.subrange(j, j + 16)[10] == out[n + 10]);
            assert(out[n + 10] == a[10]);
        } else if j < n + 15 {
            assert(out.subrange(j, j + 16)[0] == out[j]);
            assert(out[j] == a[j - n]);
        } else {
            let k = j - n - 15;
            assert(suffix.subrange(k, k + 16) =~= out.subrange(j, j + 16));
            assert(occurs_at(suffix, m, k));
        }
    }
}

/// The hand-written suffix is a part of the existing text.
pub(crate) proof fn lemma_suffix_is_part(existing: Seq<char>)
    requires
        contains(existing, after_marker()),
    ensures
        contains(preserved_suffix(existing), static_marker()) ==> contains(existing, static_marker()),
{
    let i = choose|i: int| occurs_at(existing, after_marker(), i);
    lemma_some_first_occurrence(existing, after_marker(), i);
    let f = choose|f: int| is_first_occurrence(existing, after_marker(), f);
    lemma_after_pos(existing, f);
    let suf = preserved_suffix(existing);
    let start = f + after_marker().len();
    if contains(suf, static_marker()) {
        let k = choose|k: int| occurs_at(suf, static_marker(), k);
        assert(existing.subrange(start + k, start + k + static_marker().len()) =~= suf.subrange(k, k + static_marker().len()));
        assert(occurs_at(existing, static_marker(), start + k));
    }
}

/// Where `needle` occurs, it has a first occurrence.
proof fn lemma_some_first_occurrence(hay: Seq<char>, needle: Seq<char>, i: int)
    requires
        occurs_at(hay, needle, i),
    ensures
        exists|f: int| is_first_occurrence(hay, needle, f),
    decreases i,
{
    if forall|j: int| 0 <= j < i ==> !occurs_at(hay, needle, j) {
        assert(is_first_occurrence(hay, needle, i));
    } else {
        let j = choose|j: int| 0 <= j < i && occurs_at(hay, needle, j);
        lemma_some_first_occurrence(hay, needle, j);
    }
}

/// Writing into a path that holds nothing yet puts the rendered text there
/// unchanged, so a fresh destination depends on the rendered text alone.
pub proof fn law_fresh_destination(code: Seq<char>)
    ensures
        merged(Seq::empty(), code) == Some(code),
{
    assert(!contains(Seq::<char>::empty(), static_marker())) by {
        lemma_marker_chars();
    }
    assert(!contains(Seq::<char>::empty(), after_marker())) by {
        lemma_marker_chars();
    }
}

/// A file that holds the static marker is never written, whatever is rendered.
pub proof fn law_static_protection(existing: Seq<char>, code: Seq<char>)
    requires
        contains(existing, static_marker()),
    ensures
        merged(existing, code) is None,
        content_after(existing, code) == existing,
{
}

/// Regenerating a file whose text holds the after-marker replaces what
/// precedes the marker by the rendered text and keeps what follows it.
pub proof fn law_after_marker_preserved(prefix: Seq<char>, suffix: Seq<char>, code: Seq<char>)
    requires
        !contains(prefix, after_marker()),
        !contains(prefix + after_marker() + suffix, static_marker()),
    ensures
        merged(prefix + after_marker() + suffix, code) == Some(code + after_marker() + suffix),
{
    lemma_marker_chars();
    let e = prefix + after_marker() + suffix;
    let n = prefix.len() as int;
    assert(e.subrange(n, n + 15) =~= after_marker());
    assert(occurs_at(e, after_marker(), n));
    assert forall|j: int| 0 <= j < n implies !occurs_at(e, after_marker(), j) by {
        if occurs_at(e, after_marker(), j) {
            if j + 15 <= n {
                assert(prefix.subrange(j, j + 15) =~= e.subrange(j, j + 15));
                assert(occurs_at(prefix, after_marker(), j));
            } else {
                assert(e.subrange(j, j + 15)[n - j] == e[n]);
            }
        }
    }
    lemma_after_pos(e, n);
    assert(preserved_suffix(e) =~= suffix);
}

/// Writing the same rendered text a second time leaves the file as the first
/// write left it, provided the rendered text holds neither marker.
pub proof fn law_idempotent(existing: Seq<char>, code: Seq<char>)
    requires
        !contains(code, static_marker()),
        !contains(code, after_marker()),
    ensures
        content_after(content_after(existing, code), code) == content_after(existing, code),
{
    if contains(existing, static_marker()) {
    } else if contains(existing, after_marker()) {
        let suf = preserved_suffix(existing);
        lemma_suffix_is_part(existing);
        lemma_regenerated_layout(code, suf);
        let out = code + after_marker() + suf;
        lemma_after_pos(out, code.len() as int);
        assert(preserved_suffix(out) =~= suf);
    } else {
    }
}

} // verus!
