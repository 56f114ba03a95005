//! Keeping a library attached to its footage when the files move.
use vstd::prelude::*;

use crate::model::Recording;
use crate::project::short_digest;
use crate::scan::{recording_id, spec_recording_id};
use crate::text::{base_name, file_name, first_occurrences, join, joined, owned, same_text, views};

verus! {

/// Names of the recordings whose files are not present here. A project
/// imported from someone else's machine has all of them missing, and that is
/// a state the app has to work in, not refuse to open.
pub fn missing(recs: &Vec<Recording>, present: &Vec<bool>) -> (r: Vec<String>)
    requires
        present@.len() == recs@.len(),
    ensures
        views(r@) == absent_names(recs@, present@, recs@.len() as int),
{
    let mut r: Vec<String> = Vec::new();
    let mut i: usize = 0;
    while i < recs.len()
        invariant
            present@.len() == recs@.len(),
            i <= recs@.len(),
            views(r@) == absent_names(recs@, present@, i as int),
        decreases recs@.len() - i,
    {
        if !present[i] {
            let ghost before = r@;
            r.push(recs[i].name.clone());
            assert(views(r@) == views(before).push(recs@[i as int].name@));
        }
        i = i + 1;
    }
    r
}

/// The names of the first `n` recordings whose files are not present, in order.
pub open spec fn absent_names(recs: Seq<Recording>, present: Seq<bool>, n: int) -> Seq<Seq<char>>
    decreases n,
{
    if n <= 0 {
        seq![]
    } else if !present[n - 1] {
        absent_names(recs, present, n - 1).push(recs[n - 1].name@)
    } else {
        absent_names(recs, present, n - 1)
    }
}

/// What relinking did.
#[derive(Debug)]
pub struct Relinked {
    pub linked: usize,
    pub missing: Vec<String>,
    /// Same filename, different bytes. Almost always a re-encode or a proxy,
    /// which would not line up with transcripts made from the recording itself.
    pub mismatched: Vec<String>,
}

/// The id a candidate file would have.
pub open spec fn candidate_id(c: (String, u64)) -> Seq<char> {
    spec_recording_id(c.0@, c.1)
}

pub open spec fn is_first_candidate(cands: Seq<(String, u64)>, id: Seq<char>, j: int) -> bool {
    0 <= j < cands.len() && candidate_id(cands[j]) == id && forall|k: int|
        0 <= k < j ==> candidate_id(cands[k]) != id
}

/// Whether some candidate reproduces this id.
pub open spec fn has_candidate(cands: Seq<(String, u64)>, id: Seq<char>) -> bool {
    exists|j: int| 0 <= j < cands.len() && candidate_id(cands[j]) == id
}

/// Whether some candidate has this file name.
pub open spec fn has_namesake(cands: Seq<(String, u64)>, name: Seq<char>) -> bool {
    exists|j: int| 0 <= j < cands.len() && base_name(cands[j].0@) == Some(name)
}

/// Where recording `r` points after relinking.
pub open spec fn relinked_path(r: Recording, present: bool, cands: Seq<(String, u64)>) -> Seq<char> {
    if !present && has_candidate(cands, r.id@) {
        cands[choose|j: int| is_first_candidate(cands, r.id@, j)].0@
    } else {
        r.path@
    }
}

/// A recording whose file is absent and that no candidate reproduces.
pub open spec fn lost(r: Recording, present: bool, cands: Seq<(String, u64)>) -> bool {
    !present && !has_candidate(cands, r.id@)
}

pub open spec fn count_linked(recs: Seq<Recording>, present: Seq<bool>, cands: Seq<(String, u64)>, n: int) -> nat
    decreases n,
{
    if n <= 0 {
        0
    } else {
        count_linked(recs, present, cands, n - 1) + if !present[n - 1] && has_candidate(cands, recs[n - 1].id@) {
            1nat
        } else {
            0nat
        }
    }
}

pub open spec fn lost_names(recs: Seq<Recording>, present: Seq<bool>, cands: Seq<(String, u64)>, n: int, namesake_only: bool) -> Seq<Seq<char>>
    decreases n,
{
    if n <= 0 {
        seq![]
    } else {
        let prev = lost_names(recs, present, cands, n - 1, namesake_only);
        let r = recs[n - 1];
        if lost(r, present[n - 1], cands) && (!namesake_only || has_namesake(cands, r.name@)) {
            prev.push(r.name@)
        } else {
            prev
        }
    }
}

/// The candidate ids, computed once.
fn candidate_ids(cands: &Vec<(String, u64)>) -> (ids: Vec<String>)
    ensures
        ids@.len() == cands@.len(),
        forall|j: int| 0 <= j < cands@.len() ==> #[trigger] ids@[j]@ == candidate_id(cands@[j]),
{
    let mut ids: Vec<String> = Vec::new();
    let mut j: usize = 0;
    while j < cands.len()
        invariant
            j <= cands@.len(),
            ids@.len() == j,
            forall|k: int| 0 <= k < j ==> #[trigger] ids@[k]@ == candidate_id(cands@[k]),
        decreases cands@.len() - j,
    {
        ids.push(recording_id(cands[j].0.as_str(), cands[j].1));
        j = j + 1;
    }
    ids
}

fn find_candidate(ids: &Vec<String>, cands: &Vec<(String, u64)>, id: &str) -> (r: Option<usize>)
    requires
        ids@.len() == cands@.len(),
        forall|j: int| 0 <= j < cands@.len() ==> #[trigger] ids@[j]@ == candidate_id(cands@[j]),
    ensures
        r matches Some(j) ==> is_first_candidate(cands@, id@, j as int),
        r is None ==> !has_candidate(cands@, id@),
{
    let mut j: usize = 0;
    while j < ids.len()
        invariant
            ids@.len() == cands@.len(),
            forall|k: int| 0 <= k < cands@.len() ==> #[trigger] ids@[k]@ == candidate_id(cands@[k]),
            j <= ids@.len(),
            forall|k: int| 0 <= k < j ==> candidate_id(cands@[k]) != id@,
        decreases ids@.len() - j,
    {
        if same_text(ids[j].as_str(), id) {
            assert(ids@[j as int]@ == candidate_id(cands@[j as int]));
            return Some(j);
        }
        assert(ids@[j as int]@ == candidate_id(cands@[j as int]));
        j = j + 1;
    }
    None
}

fn any_namesake(cands: &Vec<(String, u64)>, name: &str) -> (b: bool)
    ensures
        b == has_namesake(cands@, name@),
{
    let mut j: usize = 0;
    while j < cands.len()
        invariant
            j <= cands@.len(),
            forall|k: int| 0 <= k < j ==> base_name(cands@[k].0@) != Some(name@),
        decreases cands@.len() - j,
    {
        match file_name(cands[j].0.as_str()) {
            Some(n) => {
                if same_text(n.as_str(), name) {
                    return true;
                }
            },
            None => {},
        }
        j = j + 1;
    }
    false
}

/// Points recordings whose files are absent at footage that now lives
/// somewhere else, keeping every recording id, so transcripts and chaptrs
/// stay attached. `candidates` are the video files found there, with their
/// sizes; `present` says which recordings' files can be read where they are.
///
/// Ids are `blake3(filename:size)`, so a candidate is confirmed rather than
/// trusted: a file only replaces a recording when it reproduces its id.
/// Returns what was done and the library's new root: every recording's path,
/// joined with ", ".
pub fn relink(recs: &mut Vec<Recording>, present: &Vec<bool>, candidates: &Vec<(String, u64)>) -> (r: (Relinked, String))
    requires
        present@.len() == old(recs)@.len(),
    ensures
        final(recs)@.len() == old(recs)@.len(),
        forall|i: int| 0 <= i < old(recs)@.len() ==> {
            &&& (#[trigger] final(recs)@[i]).path@ == relinked_path(old(recs)@[i], present@[i], candidates@)
            &&& final(recs)@[i].id == old(recs)@[i].id
            &&& final(recs)@[i].name == old(recs)@[i].name
            &&& final(recs)@[i].tracks == old(recs)@[i].tracks
            &&& final(recs)@[i].duration_order == old(recs)@[i].duration_order
        },
        r.0.linked == count_linked(old(recs)@, present@, candidates@, old(recs)@.len() as int),
        views(r.0.missing@) == lost_names(old(recs)@, present@, candidates@, old(recs)@.len() as int, false),
        views(r.0.mismatched@) == lost_names(old(recs)@, present@, candidates@, old(recs)@.len() as int, true),
        r.1@ == joined(final(recs)@.map_values(|x: Recording| x.path@), ", "@),
{
    let ids = candidate_ids(candidates);
    let ghost o = recs@;
    let n = recs.len();
    let mut out = Relinked { linked: 0, missing: Vec::new(), mismatched: Vec::new() };
    let mut i: usize = 0;
    while i < n
        invariant
            n == o.len(),
            o == old(recs)@,
            present@.len() == n,
            ids@.len() == candidates@.len(),
            forall|j: int| 0 <= j < candidates@.len() ==> #[trigger] ids@[j]@ == candidate_id(candidates@[j]),
            recs@.len() == n,
            i <= n,
            forall|k: int| 0 <= k < n ==> {
                &&& (#[trigger] recs@[k]).id == o[k].id
                &&& recs@[k].name == o[k].name
                &&& recs@[k].tracks == o[k].tracks
                &&& recs@[k].duration_order == o[k].duration_order
            },
            forall|k: int| 0 <= k < i ==> (#[trigger] recs@[k]).path@ == relinked_path(o[k], present@[k], candidates@),
            forall|k: int| i <= k < n ==> (#[trigger] recs@[k]).path == o[k].path,
            out.linked == count_linked(o, present@, candidates@, i as int),
            out.linked <= i,
            views(out.missing@) == lost_names(o, present@, candidates@, i as int, false),
            views(out.mismatched@) == lost_names(o, present@, candidates@, i as int, true),
        decreases n - i,
    {
        if !present[i] {
            match find_candidate(&ids, candidates, recs[i].id.as_str()) {
                Some(j) => {
                    proof {
                        let c = choose|c: int| is_first_candidate(candidates@, o[i as int].id@, c);
                        assert(c == j as int) by {
                            if c < j as int {
                            } else if c > j as int {
                            }
                        }
                    }
                    let mut rec = recs.remove(i);
                    rec.path = candidates[j].0.clone();
                    recs.insert(i, rec);
                    out.linked = out.linked + 1;
                },
                None => {
                    if any_namesake(candidates, recs[i].name.as_str()) {
                        let ghost before = out.mismatched@;
                        out.mismatched.push(recs[i].name.clone());
                        assert(views(out.mismatched@) == views(before).push(o[i as int].name@));
                    }
                    let ghost before = out.missing@;
                    out.missing.push(recs[i].name.clone());
                    assert(views(out.missing@) == views(before).push(o[i as int].name@));
                },
            }
        }
        i = i + 1;
    }
    let mut paths: Vec<String> = Vec::new();
    let mut k: usize = 0;
    while k < n
        invariant
            recs@.len() == n,
            k <= n,
            views(paths@) == recs@.map_values(|x: Recording| x.path@).take(k as int),
        decreases n - k,
    {
        let ghost before = paths@;
        paths.push(recs[k].path.clone());
        proof {
            assert(views(paths@) == views(before).push(recs@[k as int].path@));
            assert(recs@.map_values(|x: Recording| x.path@).take(k + 1) == recs@.map_values(|x: Recording| x.path@).take(k as int).push(recs@[k as int].path@));
        }
        k = k + 1;
    }
    assert(recs@.map_values(|x: Recording| x.path@).take(n as int) == recs@.map_values(|x: Recording| x.path@));
    let root = join(&paths, ", ");
    (out, root)
}

/// The source a rescan should look at instead of `source`: the new path of
/// the clip of that name, or the folder the user pointed at.
pub open spec fn remapped(recs: Seq<Recording>, source: Seq<char>, dir: Seq<char>) -> Seq<char> {
    let base = match base_name(source) {
        Some(b) => b,
        None => Seq::<char>::empty(),
    };
    if exists|i: int| 0 <= i < recs.len() && recs[i].name@ == base {
        recs[choose|i: int| 0 <= i < recs.len() && recs[i].name@ == base && forall|j: int|
            0 <= j < i ==> recs[j].name@ != base].path@
    } else {
        dir
    }
}


fn holds_text(v: &Vec<String>, t: &str) -> (b: bool)
    ensures
        b == views(v@).contains(t@),
{
    let mut i: usize = 0;
    while i < v.len()
        invariant
            i <= v@.len(),
            forall|j: int| 0 <= j < i ==> v@[j]@ != t@,
        decreases v@.len() - i,
    {
        if same_text(v[i].as_str(), t) {
            assert(views(v@)[i as int] == t@);
            return true;
        }
        i = i + 1;
    }
    assert forall|j: int| 0 <= j < views(v@).len() implies views(v@)[j] != t@ by {
        assert(views(v@)[j] == v@[j]@);
    }
    false
}

/// Sources follow the footage, so a later rescan looks where the files are
/// now rather than at the drive they came from. A source naming one clip is
/// replaced by that clip's new path; anything else becomes the folder the
/// user pointed at.
pub fn remap_sources(recs: &Vec<Recording>, sources: &Vec<String>, dir: &str) -> (r: Vec<String>)
    ensures
        views(r@) == first_occurrences(views(sources@).map_values(|s: Seq<char>| remapped(recs@, s, dir@))),
{
    let ghost mapped = views(sources@).map_values(|s: Seq<char>| remapped(recs@, s, dir@));
    let mut out: Vec<String> = Vec::new();
    let mut k: usize = 0;
    while k < sources.len()
        invariant
            k <= sources@.len(),
            mapped == views(sources@).map_values(|s: Seq<char>| remapped(recs@, s, dir@)),
            views(out@) == first_occurrences(mapped.take(k as int)),
        decreases sources@.len() - k,
    {
        let base = match file_name(sources[k].as_str()) {
            Some(b) => b,
            None => String::new(),
        };
        let mut i: usize = 0;
        while i < recs.len() && !same_text(recs[i].name.as_str(), base.as_str())
            invariant
                i <= recs@.len(),
                forall|j: int| 0 <= j < i ==> recs@[j].name@ != base@,
            decreases recs@.len() - i,
        {
            i = i + 1;
        }
        let m = if i < recs.len() {
            proof {
                let c = choose|c: int| 0 <= c < recs@.len() && recs@[c].name@ == base@ && forall|j: int| 0 <= j < c ==> recs@[j].name@ != base@;
                assert(c == i as int) by {
                    if c < i as int {
                    } else if c > i as int {
                    }
                }
            }
            recs[i].path.clone()
        } else {
            owned(dir)
        };
        proof {
            assert(views(sources@)[k as int] == sources@[k as int]@);
            assert(m@ == mapped[k as int]);
            assert(mapped.take(k + 1).drop_last() == mapped.take(k as int));
        }
        if !holds_text(&out, m.as_str()) {
            let ghost before = out@;
            out.push(m);
            assert(views(out@) == views(before).push(mapped[k as int]));
        }
        k = k + 1;
    }
    assert(mapped.take(sources@.len() as int) == mapped);
    out
}

} // verus!
