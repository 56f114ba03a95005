//! Where a project's derived files live. Everything chaptr derives from a
//! footage folder lives in one directory, so the whole job is one thing to
//! delete, move or back up.
use vstd::prelude::*;

use crate::text::{concat, join_path, owned, path_join};

verus! {

/// A project's working directory.
#[derive(Debug, Clone)]
pub struct Workspace {
    pub root: String,
}

/// The file `name` in directory `dir`, under `root`.
pub open spec fn under(root: Seq<char>, dir: Seq<char>, name: Seq<char>) -> Seq<char> {
    path_join(path_join(root, dir), name)
}

/// The current filename unless only the pre-rename one exists.
pub open spec fn picked(root: Seq<char>, current: Seq<char>, legacy: Seq<char>, now_exists: bool, before_exists: bool) -> Seq<char> {
    if !now_exists && before_exists {
        path_join(root, legacy)
    } else {
        path_join(root, current)
    }
}

impl Workspace {
    pub fn new(root: String) -> (w: Workspace)
        ensures
            w.root@ == root@,
    {
        Workspace { root }
    }

    /// A file directly in the working directory.
    pub fn file(&self, name: &str) -> (p: String)
        ensures
            p@ == path_join(self.root@, name@),
    {
        join_path(self.root.as_str(), name)
    }

    pub fn library(&self) -> (p: String)
        ensures
            p@ == path_join(self.root@, "library.json"@),
    {
        join_path(self.root.as_str(), "library.json")
    }

    pub fn settings(&self) -> (p: String)
        ensures
            p@ == path_join(self.root@, "settings.json"@),
    {
        join_path(self.root.as_str(), "settings.json")
    }

    /// The chaptr list, falling back to the pre-rename `beats.json` for
    /// older projects. The caller says which of the two files exist.
    pub fn chaptrs(&self, now_exists: bool, before_exists: bool) -> (p: String)
        ensures
            p@ == picked(self.root@, "chaptrs.json"@, "beats.json"@, now_exists, before_exists),
    {
        pick(self.root.as_str(), "chaptrs.json", "beats.json", now_exists, before_exists)
    }

    /// The user's edits to the chaptr list, with the same fallback.
    pub fn edits(&self, now_exists: bool, before_exists: bool) -> (p: String)
        ensures
            p@ == picked(self.root@, "chaptrs.edits.json"@, "beats.edits.json"@, now_exists, before_exists),
    {
        pick(self.root.as_str(), "chaptrs.edits.json", "beats.edits.json", now_exists, before_exists)
    }

    pub fn transcript(&self, id: &str) -> (p: String)
        ensures
            p@ == under(self.root@, "transcripts"@, id@ + ".json"@),
    {
        let dir = join_path(self.root.as_str(), "transcripts");
        let name = concat(id, ".json");
        join_path(dir.as_str(), name.as_str())
    }

    pub fn preview(&self, id: &str) -> (p: String)
        ensures
            p@ == under(self.root@, "preview"@, id@ + ".opus"@),
    {
        let dir = join_path(self.root.as_str(), "preview");
        let name = concat(id, ".opus");
        join_path(dir.as_str(), name.as_str())
    }

    pub fn scratch(&self, id: &str) -> (p: String)
        ensures
            p@ == under(self.root@, "scratch"@, id@ + ".wav"@),
    {
        let dir = join_path(self.root.as_str(), "scratch");
        let name = concat(id, ".wav");
        join_path(dir.as_str(), name.as_str())
    }
}

/// Current filename, falling back to the pre-rename one for older projects.
pub fn pick(root: &str, current: &str, legacy: &str, now_exists: bool, before_exists: bool) -> (p: String)
    ensures
        p@ == picked(root@, current@, legacy@, now_exists, before_exists),
{
    if !now_exists && before_exists {
        join_path(root, legacy)
    } else {
        join_path(root, current)
    }
}

/// Re-running the chaptr pass never overwrites the user's edits: whichever
/// files exist, the edits live at another path than the generated list.
pub proof fn law_edits_apart(root: Seq<char>, a: bool, b: bool, c: bool, d: bool)
    ensures
        picked(root, "chaptrs.json"@, "beats.json"@, a, b) != picked(
            root,
            "chaptrs.edits.json"@,
            "beats.edits.json"@,
            c,
            d,
        ),
{
    reveal_strlit("chaptrs.json");
    reveal_strlit("beats.json");
    reveal_strlit("chaptrs.edits.json");
    reveal_strlit("beats.edits.json");
    let x = picked(root, "chaptrs.json"@, "beats.json"@, a, b);
    let y = picked(root, "chaptrs.edits.json"@, "beats.edits.json"@, c, d);
    let pre = if root.len() == 0 || root.last() == '/' { root } else { root + seq!['/'] };
    let xs = if !a && b { "beats.json"@ } else { "chaptrs.json"@ };
    let ys = if !c && d { "beats.edits.json"@ } else { "chaptrs.edits.json"@ };
    assert(x == pre + xs);
    assert(y == pre + ys);
    if x == y {
        assert(xs.len() == ys.len());
        assert(xs =~= x.subrange(pre.len() as int, x.len() as int));
        assert(ys =~= y.subrange(pre.len() as int, y.len() as int));
        if xs.len() == 10 {
            assert(ys.len() != 10);
        }
    }
}

} // verus!
