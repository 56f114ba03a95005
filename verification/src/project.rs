//! Projects: named sets of sources, and the registry that remembers them.
//! Derived data never sits next to the footage, so a project can be deleted
//! without touching a single video file.
use vstd::prelude::*;

use crate::text::{
    distinct, first_occurrences, lemma_first_occurrences, lemma_same_set_same_multiset, join_path, base_name, concat, decimal, file_name, join, joined, lemma_sorted_copy, owned, path_join,
    push_decimal, push_str, same_text, sort_strings, sorted_copy, views,
};
use crate::workspace::Workspace;

verus! {

#[derive(Debug)]
pub struct Project {
    pub id: String,
    pub name: String,
    pub sources: Vec<String>,
    pub created: String,
    pub opened: String,
    pub recordings: usize,
    /// Total footage length, held as the bit pattern of its `f64` seconds;
    /// nothing here reads it.
    pub duration_bits: u64,
    /// Where the user saved this project, once they have.
    pub file: Option<String>,
    /// Work exists that is not in the saved file yet.
    pub unsaved: bool,
}

/// The lowercase hexadecimal BLAKE3 digest of the UTF-8 bytes of `text`.
pub uninterp spec fn blake3_hex(text: Seq<char>) -> Seq<char>;

pub open spec fn is_lower_hex(c: char) -> bool {
    ('0' <= c && c <= '9') || ('a' <= c && c <= 'f')
}

/// `blake3::hash(text.as_bytes()).to_hex()`. The contract names the digest,
/// and states what `Hash::to_hex` guarantees of its form: 64 lowercase hex
/// digits.
#[verifier::external_body]
fn blake3_hex_of(text: &str) -> (r: String)
    ensures
        r@ == blake3_hex(text@),
        r@.len() == 64,
        forall|i: int| 0 <= i < r@.len() ==> is_lower_hex(#[trigger] r@[i]),
{
    blake3::hash(text.as_bytes()).to_hex().to_string()
}

/// The first twelve digits of the digest of `text`.
pub open spec fn short_digest(text: Seq<char>) -> Seq<char> {
    blake3_hex(text).take(12)
}

/// The id of a set of sources: the digest of its members, each once, in
/// sorted order and NUL-separated, so neither order nor repeats matter.
pub open spec fn spec_id_for(sources: Seq<Seq<char>>) -> Seq<char> {
    short_digest(joined(sorted_copy(first_occurrences(sources)), seq!['\0']))
}

/// Twelve lowercase hexadecimal digits.
pub open spec fn is_short_hex(t: Seq<char>) -> bool {
    t.len() == 12 && forall|i: int| 0 <= i < t.len() ==> is_lower_hex(#[trigger] t[i])
}

/// The first twelve characters of a digest.
pub(crate) fn short(text: &str) -> (r: String)
    ensures
        r@ == short_digest(text@),
        is_short_hex(r@),
{
    let hex = blake3_hex_of(text);
    let v = crate::text::chars_of(hex.as_str());
    crate::text::string_of(&v, 0, 12)
}

/// Stable for the same set of sources, so re-opening the same folder finds
/// the work already done rather than starting again.
pub fn id_for(sources: &Vec<String>) -> (r: String)
    ensures
        r@ == spec_id_for(views(sources@)),
        is_short_hex(r@),
{
    let once = distinct(sources);
    let sorted = sort_strings(once);
    proof {
        lemma_first_occurrences(views(sources@));
        lemma_same_set_same_multiset(views(once@), first_occurrences(views(sources@)));
        lemma_sorted_copy(first_occurrences(views(sources@)), views(sorted@));
    }
    let text = join(&sorted, "\0");
    proof {
        reveal_strlit("\0");
        assert("\0"@ == seq!['\0']);
    }
    short(text.as_str())
}

/// A display name for a set of sources: the first one's file name, and how
/// many more there are.
pub open spec fn spec_nice_name(sources: Seq<Seq<char>>) -> Seq<char> {
    if sources.len() == 0 {
        "empty"@
    } else {
        let base = match base_name(sources[0]) {
            Some(b) => b,
            None => sources[0],
        };
        if sources.len() == 1 {
            base
        } else {
            base + " +"@ + decimal((sources.len() - 1) as nat)
        }
    }
}

pub fn nice_name(sources: &Vec<String>) -> (r: String)
    ensures
        r@ == spec_nice_name(views(sources@)),
{
    if sources.len() == 0 {
        return owned("empty");
    }
    assert(views(sources@)[0] == sources@[0]@);
    let first = sources[0].as_str();
    let mut base = match file_name(first) {
        Some(b) => b,
        None => owned(first),
    };
    if sources.len() > 1 {
        push_str(&mut base, " +");
        push_decimal(&mut base, (sources.len() - 1) as u64);
    }
    base
}

/// The working directory of project `id`, under the data root.
pub fn workspace(data_root: &str, id: &str) -> (w: Workspace)
    ensures
        w.root@ == path_join(path_join(data_root@, "projects"@), id@),
{
    let projects = crate::text::join_path(data_root, "projects");
    Workspace::new(crate::text::join_path(projects.as_str(), id))
}

/// Where the project registry is kept.
pub fn registry(data_root: &str) -> (p: String)
    ensures
        p@ == path_join(data_root@, "projects.json"@),
{
    crate::text::join_path(data_root, "projects.json")
}

/// The registry holds `p` first, most recently opened, and every other
/// project it held, in order; an older entry with `p`'s id is dropped.
pub open spec fn spec_put(all: Seq<Project>, p: Project) -> Seq<Project> {
    seq![p] + without(all, p.id@)
}

/// The registry without any project of this id, order kept.
pub open spec fn without(all: Seq<Project>, id: Seq<char>) -> Seq<Project> {
    all.filter(other_than(id))
}

pub open spec fn other_than(id: Seq<char>) -> spec_fn(Project) -> bool {
    |q: Project| q.id@ != id
}

/// Records a project at the head of the registry.
pub fn put(all: Vec<Project>, project: Project) -> (r: Vec<Project>)
    ensures
        r@ == spec_put(all@, project),
{
    let r = forget(all, project.id.as_str());
    let mut r = r;
    r.insert(0, project);
    proof {
        assert(r@ == seq![project] + r@.skip(1));
    }
    r
}

/// The registry without any project with this id.
pub fn forget(all: Vec<Project>, id: &str) -> (r: Vec<Project>)
    ensures
        r@ == without(all@, id@),
{
    let ghost o = all@;
    let ghost f = other_than(id@);
    let mut rest = all;
    let mut out: Vec<Project> = Vec::new();
    let n = rest.len();
    let mut k: usize = 0;
    while k < n
        invariant
            n == o.len(),
            k <= n,
            f == other_than(id@),
            rest@ == o.skip(k as int),
            out@ == o.take(k as int).filter(f),
        decreases n - k,
    {
        let p = rest.remove(0);
        proof {
            assert(p == o[k as int]);
            assert(o.take(k + 1) == o.take(k as int).push(p));
            o.take(k as int).lemma_filter_push(p, f);
            assert(rest@ == o.skip(k + 1));
        }
        if !same_text(p.id.as_str(), id) {
            out.push(p);
        }
        k = k + 1;
    }
    assert(o.take(n as int) == o);
    out
}

pub open spec fn is_first_id(all: Seq<Project>, id: Seq<char>, i: int) -> bool {
    0 <= i < all.len() && all[i].id@ == id && forall|j: int| 0 <= j < i ==> all[j].id@ != id
}

fn position(all: &Vec<Project>, id: &str) -> (r: Option<usize>)
    ensures
        r matches Some(i) ==> is_first_id(all@, id@, i as int),
        r is None ==> forall|j: int| 0 <= j < all@.len() ==> all@[j].id@ != id@,
{
    let mut i: usize = 0;
    while i < all.len()
        invariant
            i <= all@.len(),
            forall|j: int| 0 <= j < i ==> all@[j].id@ != id@,
        decreases all@.len() - i,
    {
        if same_text(all[i].id.as_str(), id) {
            return Some(i);
        }
        i = i + 1;
    }
    None
}

/// The project with this id.
pub fn get<'a>(all: &'a Vec<Project>, id: &str) -> (r: Option<&'a Project>)
    ensures
        r is None <==> forall|j: int| 0 <= j < all@.len() ==> all@[j].id@ != id@,
        r matches Some(p) ==> exists|i: int| is_first_id(all@, id@, i) && all@[i] == *p,
{
    match position(all, id) {
        Some(i) => Some(&all[i]),
        None => None,
    }
}

/// `all` with its first project of this id changed to `changed(p)`; as it
/// was when there is none.
pub open spec fn updated(all: Seq<Project>, id: Seq<char>, new: spec_fn(Project) -> Project) -> Seq<Project> {
    if exists|i: int| is_first_id(all, id, i) {
        let i = choose|i: int| is_first_id(all, id, i);
        all.update(i, new(all[i]))
    } else {
        all
    }
}

pub open spec fn with_unsaved(p: Project) -> Project {
    Project { unsaved: true, ..p }
}

pub open spec fn with_counts(p: Project, recordings: usize, duration_bits: u64) -> Project {
    Project { recordings, duration_bits, ..p }
}

proof fn lemma_first_id_unique(all: Seq<Project>, id: Seq<char>, i: int)
    requires
        is_first_id(all, id, i),
    ensures
        (choose|c: int| is_first_id(all, id, c)) == i,
{
    let c = choose|c: int| is_first_id(all, id, c);
    assert(is_first_id(all, id, c));
    if c < i {
    } else if c > i {
    }
}

/// Anything that produces new results marks the project unsaved, so the UI
/// can say so rather than letting hours of work sit only in the cache.
pub fn mark_unsaved(all: &mut Vec<Project>, id: &str)
    ensures
        final(all)@ == updated(old(all)@, id@, |p: Project| with_unsaved(p)),
{
    match position(all, id) {
        Some(i) => {
            proof {
                lemma_first_id_unique(all@, id@, i as int);
            }
            let mut p = all.remove(i);
            p.unsaved = true;
            all.insert(i, p);
        },
        None => {},
    }
}

/// Records how much footage a scan found.
pub fn touch(all: &mut Vec<Project>, id: &str, recordings: usize, duration_bits: u64)
    ensures
        final(all)@ == updated(old(all)@, id@, |p: Project| with_counts(p, recordings, duration_bits)),
{
    match position(all, id) {
        Some(i) => {
            proof {
                lemma_first_id_unique(all@, id@, i as int);
            }
            let mut p = all.remove(i);
            p.recordings = recordings;
            p.duration_bits = duration_bits;
            all.insert(i, p);
        },
        None => {},
    }
}

/// Why a project could not be opened.
#[derive(Debug, Clone, PartialEq, Eq)]
pub enum OpenError {
    /// No sources were given.
    NoSources,
    /// A source that must be readable does not exist.
    Missing(String),
}

impl OpenError {
    pub fn message(&self) -> (s: String)
        ensures
            self matches OpenError::NoSources ==> s@ == "pick at least one folder or clip"@,
            self matches OpenError::Missing(m) ==> s@ == m@ + " does not exist"@,
    {
        match self {
            OpenError::NoSources => owned("pick at least one folder or clip"),
            OpenError::Missing(m) => concat(m.as_str(), " does not exist"),
        }
    }
}


fn copy_strings(v: &Vec<String>) -> (r: Vec<String>)
    ensures
        views(r@) == views(v@),
{
    let mut r: Vec<String> = Vec::new();
    let mut i: usize = 0;
    while i < v.len()
        invariant
            i <= v@.len(),
            views(r@) == views(v@).take(i as int),
        decreases v@.len() - i,
    {
        let ghost before = r@;
        r.push(v[i].clone());
        proof {
            assert(views(r@) == views(before).push(v@[i as int]@));
            assert(views(v@).take(i + 1) == views(v@).take(i as int).push(v@[i as int]@));
        }
        i = i + 1;
    }
    assert(views(v@).take(v@.len() as int) == views(v@));
    r
}

pub open spec fn same_file(a: Option<String>, b: Option<String>) -> bool {
    match (a, b) {
        (Some(x), Some(y)) => x@ == y@,
        (None, None) => true,
        _ => false,
    }
}

/// Every field of `q` reads as the same field of `p`, but `opened`.
pub open spec fn same_but_opened(q: Project, p: Project) -> bool {
    &&& q.id@ == p.id@
    &&& q.name@ == p.name@
    &&& views(q.sources@) == views(p.sources@)
    &&& q.created@ == p.created@
    &&& q.recordings == p.recordings
    &&& q.duration_bits == p.duration_bits
    &&& same_file(q.file, p.file)
    &&& q.unsaved == p.unsaved
}

fn reopened(p: &Project, now: &str) -> (q: Project)
    ensures
        same_but_opened(q, *p),
        q.opened@ == now@,
{
    Project {
        id: p.id.clone(),
        name: p.name.clone(),
        sources: copy_strings(&p.sources),
        created: p.created.clone(),
        opened: owned(now),
        recordings: p.recordings,
        duration_bits: p.duration_bits,
        file: match &p.file {
            Some(f) => Some(f.clone()),
            None => None,
        },
        unsaved: p.unsaved,
    }
}

pub open spec fn first_missing(present: Seq<bool>, i: int) -> bool {
    0 <= i < present.len() && !present[i] && forall|j: int| 0 <= j < i ==> present[j]
}

/// Opens a project on `sources`: the registry's entry for the same set of
/// sources when there is one, with `opened` set to `now`, or a new project.
/// When the footage must be reachable, a source that is not present is an
/// error. A bundle carries the source paths of the machine that saved it, so
/// importing one does not require them (`require_media` false).
pub fn open_inner(sources: Vec<String>, require_media: bool, present: &Vec<bool>, now: &str, registry: &Vec<Project>) -> (r: Result<Project, OpenError>)
    requires
        present@.len() == sources@.len(),
    ensures
        sources@.len() == 0 ==> r == Err::<Project, OpenError>(OpenError::NoSources),
        sources@.len() > 0 && require_media && (exists|i: int| 0 <= i < present@.len() && !present@[i]) ==>
            (r matches Err(OpenError::Missing(m)) && exists|i: int| first_missing(present@, i) && m@ == sources@[i]@),
        r is Ok <==> sources@.len() > 0 && (!require_media || forall|i: int| 0 <= i < present@.len() ==> present@[i]),
        r matches Ok(p) ==> {
            let id = spec_id_for(views(sources@));
            &&& p.id@ == id
            &&& p.opened@ == now@
            &&& (exists|i: int| is_first_id(registry@, id, i)) ==>
                same_but_opened(p, registry@[choose|i: int| is_first_id(registry@, id, i)])
            &&& (forall|i: int| 0 <= i < registry@.len() ==> registry@[i].id@ != id) ==> {
                &&& p.name@ == spec_nice_name(views(sources@))
                &&& views(p.sources@) == views(sources@)
                &&& p.created@ == now@
                &&& p.recordings == 0
                &&& p.duration_bits == 0
                &&& p.file is None
                &&& !p.unsaved
            }
        },
{
    if sources.len() == 0 {
        return Err(OpenError::NoSources);
    }
    if require_media {
        let mut i: usize = 0;
        while i < sources.len()
            invariant
                present@.len() == sources@.len(),
                sources@.len() > 0,
                require_media,
                i <= sources@.len(),
                forall|j: int| 0 <= j < i ==> present@[j],
            decreases sources@.len() - i,
        {
            if !present[i] {
                assert(first_missing(present@, i as int));
                assert(!(forall|j: int| 0 <= j < present@.len() ==> present@[j]));
                return Err(OpenError::Missing(sources[i].clone()));
            }
            i = i + 1;
        }
    }
    let id = id_for(&sources);
    match position(registry, id.as_str()) {
        Some(i) => {
            proof {
                lemma_first_id_unique(registry@, id@, i as int);
            }
            Ok(reopened(&registry[i], now))
        },
        None => {
            let name = nice_name(&sources);
            Ok(Project {
                name,
                id,
                sources,
                created: owned(now),
                opened: owned(now),
                recordings: 0,
                duration_bits: 0,
                file: None,
                unsaved: false,
            })
        },
    }
}

/// A project's id depends only on the set of its sources: not on the order
/// they are listed in, nor on a source listed twice.
pub proof fn law_id_ignores_order(a: Seq<Seq<char>>, b: Seq<Seq<char>>)
    requires
        a.to_set() == b.to_set(),
    ensures
        spec_id_for(a) == spec_id_for(b),
{
    lemma_first_occurrences(a);
    lemma_first_occurrences(b);
    let fa = first_occurrences(a);
    let fb = first_occurrences(b);
    lemma_same_set_same_multiset(fa, fb);
    assert(sorted_copy(fa) == sorted_copy(fb)) by {
        assert((|w: Seq<Seq<char>>| crate::text::sorted_text(w) && w.to_multiset() == fa.to_multiset())
            == (|w: Seq<Seq<char>>| crate::text::sorted_text(w) && w.to_multiset() == fb.to_multiset()));
    }
}

/// After a project is put into the registry, looking its id up finds it,
/// first; and the registry holds no other project with that id.
pub proof fn law_put_then_get(all: Seq<Project>, p: Project)
    ensures
        is_first_id(spec_put(all, p), p.id@, 0),
        spec_put(all, p)[0] == p,
        forall|i: int| 1 <= i < spec_put(all, p).len() ==> spec_put(all, p)[i].id@ != p.id@,
{
    let r = spec_put(all, p);
    let f = other_than(p.id@);
    assert forall|i: int| 1 <= i < r.len() implies r[i].id@ != p.id@ by {
        assert(r[i] == all.filter(f)[i - 1]);
        all.lemma_filter_pred(f, i - 1);
    }
}

/// A forgotten project is gone from the registry, and every other project
/// is still there.
pub proof fn law_forget(all: Seq<Project>, id: Seq<char>, other: Project)
    ensures
        forall|i: int| 0 <= i < without(all, id).len() ==> (#[trigger] without(all, id)[i]).id@ != id,
        all.contains(other) && other.id@ != id ==> without(all, id).contains(other),
{
    let f = other_than(id);
    assert forall|i: int| 0 <= i < without(all, id).len() implies (#[trigger] without(all, id)[i]).id@ != id by {
        all.lemma_filter_pred(f, i);
    }
    if all.contains(other) && other.id@ != id {
        let i = choose|i: int| 0 <= i < all.len() && all[i] == other;
        all.lemma_filter_contains(f, i);
    }
}

/// The operating system, which decides where per-user data lives.
#[derive(Debug, Clone, Copy, PartialEq, Eq, Structural)]
pub enum Platform {
    Windows,
    MacOs,
    Other,
}

/// Where all of chaptr's working data lives: `%APPDATA%\chaptr` on
/// Windows, `~/Library/Application Support/chaptr` on macOS, and
/// `$XDG_DATA_HOME/chaptr` (by default `~/.local/share/chaptr`) elsewhere.
/// An unset variable reads as the empty path.
pub open spec fn spec_data_root(
    platform: Platform,
    appdata: Option<Seq<char>>,
    home: Option<Seq<char>>,
    xdg: Option<Seq<char>>,
) -> Seq<char> {
    let h = match home {
        Some(h) => h,
        None => seq![],
    };
    match platform {
        Platform::Windows => path_join(
            match appdata {
                Some(a) => a,
                None => seq![],
            },
            "chaptr"@,
        ),
        Platform::MacOs => path_join(h, "Library/Application Support/chaptr"@),
        Platform::Other => path_join(
            match xdg {
                Some(x) => x,
                None => path_join(h, ".local/share"@),
            },
            "chaptr"@,
        ),
    }
}

pub open spec fn text_of(v: Option<&str>) -> Option<Seq<char>> {
    match v {
        Some(t) => Some(t@),
        None => None,
    }
}

/// The data root, from the platform and the environment variables it reads.
pub fn data_root(platform: Platform, appdata: Option<&str>, home: Option<&str>, xdg: Option<&str>) -> (r: String)
    ensures
        r@ == spec_data_root(platform, text_of(appdata), text_of(home), text_of(xdg)),
{
    let h = match home {
        Some(h) => h,
        None => "",
    };
    proof {
        reveal_strlit("");
    }
    match platform {
        Platform::Windows => join_path(
            match appdata {
                Some(a) => a,
                None => "",
            },
            "chaptr",
        ),
        Platform::MacOs => join_path(h, "Library/Application Support/chaptr"),
        Platform::Other => match xdg {
            Some(x) => join_path(x, "chaptr"),
            None => {
                let base = join_path(h, ".local/share");
                join_path(base.as_str(), "chaptr")
            },
        },
    }
}

} // verus!
