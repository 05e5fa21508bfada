//! Stale output reclaimer: picks, among the files found in the output tree,
//! those that this run did not produce and that are not protected.
use vstd::prelude::*;
use crate::text::{chars_of, contains, find};
use crate::writer::{Modified, STATIC_MARKER, static_marker};

verus! {

/// A file found in the output tree, with its content where it could be read.
pub struct Candidate {
    pub path: String,
    pub content: Option<String>,
}

/// The path names a generated source file: its last component is longer
/// than `.rs` and ends with it.
pub open spec fn is_source_path(p: Seq<char>) -> bool {
    let n = p.len() as int;
    n > 3 && p[n - 3] == '.' && p[n - 2] == 'r' && p[n - 1] == 's' && p[n - 4] != '/'
}

/// The candidate is to be deleted: a source file, not touched this run,
/// readable, and without the static marker.
pub open spec fn is_stale(c: Candidate, modified: Set<Seq<char>>) -> bool {
    is_source_path(c.path@) && !modified.contains(c.path@) && match c.content {
        Some(t) => !contains(t@, static_marker()),
        None => false,
    }
}

/// The paths of the stale candidates, in the order in which they were found.
pub open spec fn stale_of(cands: Seq<Candidate>, modified: Set<Seq<char>>) -> Seq<Seq<char>>
    decreases cands.len(),
{
    if cands.len() == 0 {
        Seq::empty()
    } else {
        let rest = stale_of(cands.drop_last(), modified);
        if is_stale(cands.last(), modified) {
            rest.push(cands.last().path@)
        } else {
            rest
        }
    }
}

/// Whether `path` names a generated source file.
pub fn has_source_extension(path: &str) -> (r: bool)
    ensures
        r == is_source_path(path@),
{
    let p = chars_of(path);
    let n = p.len();
    n > 3 && p[n - 3] == '.' && p[n - 2] == 'r' && p[n - 1] == 's' && p[n - 4] != '/'
}

/// Whether the candidate is to be deleted.
pub fn candidate_is_stale(c: &Candidate, modified: &Modified, marker: &Vec<char>) -> (r: bool)
    requires
        marker@ == static_marker(),
    ensures
        r == is_stale(*c, modified@),
{
    if !has_source_extension(c.path.as_str()) || modified.contains(c.path.as_str()) {
        return false;
    }
    match &c.content {
        Some(t) => find(&chars_of(t.as_str()), marker).is_none(),
        None => false,
    }
}

/// The paths to delete at the end of a run: every candidate that names a
/// generated source file, was not touched this run, could be read, and does
/// not hold the static marker.
pub fn remove_old_files(candidates: &Vec<Candidate>, modified: &Modified) -> (r: Vec<String>)
    ensures
        r@.map_values(|s: String| s@) == stale_of(candidates@, modified@),
{
    let marker = chars_of(STATIC_MARKER);
    let mut out: Vec<String> = Vec::new();
    let mut i: usize = 0;
    while i < candidates.len()
        invariant
            i <= candidates@.len(),
            marker@ == static_marker(),
            out@.map_values(|s: String| s@) == stale_of(candidates@.subrange(0, i as int), modified@),
        decreases candidates@.len() - i,
    {
        let c = &candidates[i];
        assert(candidates@.subrange(0, i + 1).drop_last() =~= candidates@.subrange(0, i as int));
        if candidate_is_stale(c, modified, &marker) {
            out.push(c.path.clone());
        }
        assert(out@.map_values(|s: String| s@) =~= stale_of(candidates@.subrange(0, i + 1), modified@));
        i = i + 1;
    }
    assert(candidates@.subrange(0, candidates@.len() as int) =~= candidates@);
    out
}

/// A stale path is a candidate that was not touched this run.
pub proof fn law_stale_untouched(cands: Seq<Candidate>, modified: Set<Seq<char>>, k: int)
    requires
        0 <= k < stale_of(cands, modified).len(),
    ensures
        exists|j: int| 0 <= j < cands.len() && cands[j].path@ == stale_of(cands, modified)[k]
            && is_stale(cands[j], modified),
        !modified.contains(stale_of(cands, modified)[k]),
    decreases cands.len(),
{
    let rest = stale_of(cands.drop_last(), modified);
    if k < rest.len() {
        law_stale_untouched(cands.drop_last(), modified, k);
        let j = choose|j: int| 0 <= j < cands.drop_last().len() && cands.drop_last()[j].path@ == rest[k]
            && is_stale(cands.drop_last()[j], modified);
        assert(cands[j] == cands.drop_last()[j]);
    } else {
        assert(cands[cands.len() - 1] == cands.last());
    }
}

/// A file that holds the static marker is never reclaimed.
pub proof fn law_protected_never_stale(c: Candidate, modified: Set<Seq<char>>)
    requires
        c.content matches Some(t) && contains(t@, static_marker()),
    ensures
        !is_stale(c, modified),
{
}

/// Every candidate that is stale is reclaimed.
pub proof fn law_stale_reclaimed(cands: Seq<Candidate>, modified: Set<Seq<char>>, j: int)
    requires
        0 <= j < cands.len(),
        is_stale(cands[j], modified),
    ensures
        stale_of(cands, modified).contains(cands[j].path@),
    decreases cands.len(),
{
    let rest = stale_of(cands.drop_last(), modified);
    if j < cands.len() - 1 {
        assert(cands.drop_last()[j] == cands[j]);
        law_stale_reclaimed(cands.drop_last(), modified, j);
        let k = choose|k: int| 0 <= k < rest.len() && rest[k] == cands[j].path@;
        if is_stale(cands.last(), modified) {
            assert(rest.push(cands.last().path@)[k] == cands[j].path@);
        }
    } else {
        let out = rest.push(cands.last().path@);
        assert(out[rest.len() as int] == cands[j].path@);
    }
}

/// The candidates name distinct paths.
pub open spec fn distinct_paths(cands: Seq<Candidate>) -> bool {
    forall|i: int, j: int| 0 <= i < j < cands.len() ==> (#[trigger] cands[i]).path@ != (#[trigger] cands[j]).path@
}

/// Where the candidates name distinct paths, each stale path is listed once,
/// so each deletion is reported by exactly one line.
pub proof fn law_stale_listed_once(cands: Seq<Candidate>, modified: Set<Seq<char>>)
    requires
        distinct_paths(cands),
    ensures
        stale_of(cands, modified).no_duplicates(),
    decreases cands.len(),
{
    if cands.len() > 0 {
        let init = cands.drop_last();
        assert(distinct_paths(init)) by {
            assert forall|i: int, j: int| 0 <= i < j < init.len() implies (#[trigger] init[i]).path@ != (#[trigger] init[j]).path@ by {
                assert(init[i] == cands[i] && init[j] == cands[j]);
            }
        }
        law_stale_listed_once(init, modified);
        let rest = stale_of(init, modified);
        if is_stale(cands.last(), modified) {
            let out = rest.push(cands.last().path@);
            assert forall|a: int, b: int| 0 <= a < out.len() && 0 <= b < out.len() && a != b implies out[a] != out[b] by {
                if a < rest.len() && b < rest.len() {
                    assert(out[a] == rest[a] && out[b] == rest[b]);
                } else {
                    let k = if a < rest.len() { a } else { b };
                    if k < rest.len() {
                        law_stale_untouched(init, modified, k);
                        let j = choose|j: int| 0 <= j < init.len() && init[j].path@ == rest[k] && is_stale(init[j], modified);
                        assert(cands[j] == init[j]);
                        assert(cands[cands.len() - 1] == cands.last());
                        assert(out[k] == rest[k]);
                    }
                }
            }
        }
    }
}

} // verus!
