//! External executables chaptr drives. Shipped alongside the app in `bin/`,
//! with a fall back to PATH so a dev checkout works without vendoring them.
use vstd::prelude::*;

use crate::text::{concat, owned};

verus! {

#[derive(Debug, Clone)]
pub struct Sidecars {
    pub ffmpeg: String,
    pub ffprobe: String,
    pub whisper: String,
    pub llama: String,
}

/// An executable's file name: `.exe` is added on Windows.
pub open spec fn exe_name(stem: Seq<char>, windows: bool) -> Seq<char> {
    if windows {
        stem + ".exe"@
    } else {
        stem
    }
}

pub fn exe(stem: &str, windows: bool) -> (r: String)
    ensures
        r@ == exe_name(stem@, windows),
{
    if windows {
        concat(stem, ".exe")
    } else {
        owned(stem)
    }
}

/// Where a tool was found, or its bare name, left for PATH to resolve.
pub open spec fn located_or_bare(found: Option<String>, stem: Seq<char>, windows: bool) -> Seq<char> {
    match found {
        Some(p) => p@,
        None => exe_name(stem, windows),
    }
}

fn or_bare(found: Option<String>, stem: &str, windows: bool) -> (r: String)
    ensures
        r@ == located_or_bare(found, stem@, windows),
{
    match found {
        Some(p) => p,
        None => exe(stem, windows),
    }
}

/// The display names of the four tools, in field order.
pub open spec fn tool_names() -> Seq<Seq<char>> {
    seq!["ffmpeg"@, "ffprobe"@, "whisper-cli"@, "llama-server"@]
}

/// The required tools whose `usable` flag is false, by display name.
pub open spec fn unusable(usable: Seq<bool>) -> Seq<Seq<char>> {
    Seq::new(4, |i: int| i).filter(|i: int| !usable[i]).map_values(|i: int| tool_names()[i])
}

impl Sidecars {
    /// The tools where they were found, and by bare name where they were
    /// not.
    pub fn discover(
        ffmpeg: Option<String>,
        ffprobe: Option<String>,
        whisper: Option<String>,
        llama: Option<String>,
        windows: bool,
    ) -> (s: Sidecars)
        ensures
            s.ffmpeg@ == located_or_bare(ffmpeg, "ffmpeg"@, windows),
            s.ffprobe@ == located_or_bare(ffprobe, "ffprobe"@, windows),
            s.whisper@ == located_or_bare(whisper, "whisper-cli"@, windows),
            s.llama@ == located_or_bare(llama, "llama-server"@, windows),
    {
        Sidecars {
            ffmpeg: or_bare(ffmpeg, "ffmpeg", windows),
            ffprobe: or_bare(ffprobe, "ffprobe", windows),
            whisper: or_bare(whisper, "whisper-cli", windows),
            llama: or_bare(llama, "llama-server", windows),
        }
    }

    /// Which of the required tools are missing, by display name, given
    /// whether each of ffmpeg, ffprobe, whisper-cli and llama-server (in
    /// that order) is a file or found on PATH.
    pub fn missing(&self, usable: [bool; 4]) -> (r: Vec<String>)
        ensures
            r@.map_values(|s: String| s@) == unusable(usable@),
    {
        let mut r: Vec<String> = Vec::new();
        let names = ["ffmpeg", "ffprobe", "whisper-cli", "llama-server"];
        let ghost idx = Seq::new(4, |i: int| i);
        let ghost keep = |i: int| !usable@[i];
        let mut i: usize = 0;
        while i < 4
            invariant
                i <= 4,
                idx == Seq::new(4, |i: int| i),
                keep == (|i: int| !usable@[i]),
                names@ == seq!["ffmpeg", "ffprobe", "whisper-cli", "llama-server"],
                r@.map_values(|s: String| s@) == idx.take(i as int).filter(keep).map_values(|i: int| tool_names()[i]),
            decreases 4 - i,
        {
            proof {
                assert(idx.take(i + 1) == idx.take(i as int).push(i as int));
                idx.take(i as int).lemma_filter_push(i as int, keep);
                reveal_strlit("ffmpeg");
                reveal_strlit("ffprobe");
                reveal_strlit("whisper-cli");
                reveal_strlit("llama-server");
            }
            if !usable[i] {
                let ghost before = r@;
                r.push(owned(names[i]));
                proof {
                    assert(r@.map_values(|s: String| s@) == before.map_values(|s: String| s@).push(tool_names()[i as int]));
                    assert(idx.take(i as int).filter(keep).push(i as int).map_values(|i: int| tool_names()[i])
                        == idx.take(i as int).filter(keep).map_values(|i: int| tool_names()[i]).push(tool_names()[i as int]));
                }
            }
            i = i + 1;
        }
        assert(idx.take(4) == idx);
        r
    }

    /// Succeeds when the tool is usable (a file, or found on PATH); the error
    /// says which tool is missing and what to do.
    pub fn require(&self, tool: &str, usable: bool) -> (r: Result<(), String>)
        ensures
            usable ==> r is Ok,
            !usable ==> (r matches Err(e) && e@ == tool@ + " not found; install it or drop it in the app's bin/ folder"@),
    {
        if usable {
            Ok(())
        } else {
            Err(concat(tool, " not found; install it or drop it in the app's bin/ folder"))
        }
    }
}

} // verus!
