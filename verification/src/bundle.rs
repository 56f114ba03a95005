//! The project file: everything a project is, in one file the user owns and
//! can move or send. What is decided here is where it goes, what it is
//! called, and whether this version can read it.
use vstd::prelude::*;

use crate::prefs::{provider_key, Engine, Prefs};
use crate::text::{
    base_name, extension, extension_of, file_name, owned, spec_with_extension, with_extension,
};

verus! {

/// The extension of a saved project.
pub const EXTENSION: &'static str = "chaptr";

/// The newest bundle layout this version writes and reads.
pub const VERSION: u32 = 1;

/// A bundle from a newer version is refused rather than misread.
pub fn check_version(version: u32) -> (r: Result<(), String>)
    ensures
        r is Ok <==> version <= VERSION,
        r matches Err(e) ==> e@ == "this project was made by a newer version of chaptr"@,
{
    if version > VERSION {
        Err(owned("this project was made by a newer version of chaptr"))
    } else {
        Ok(())
    }
}

/// What gzip makes of these bytes: flate2's `GzEncoder` at the default level
/// with its default header (no file name, no time stamp).
pub uninterp spec fn gzip_of(bytes: Seq<u8>) -> Seq<u8>;

/// What flate2's `GzDecoder` reads out of these bytes: the contents of the
/// gzip member they start with; none when they are not gzip, are cut short
/// or fail its checksum.
pub uninterp spec fn gunzip_of(bytes: Seq<u8>) -> Option<Seq<u8>>;

pub open spec fn opt_bytes(o: Option<Vec<u8>>) -> Option<Seq<u8>> {
    match o {
        Some(v) => Some(v@),
        None => None,
    }
}

/// flate2's `GzEncoder::new(Vec::new(), Compression::default())`, fed the
/// bytes and finished. Claimed: the result is the named gzip of the bytes,
/// and gzip is lossless, so decoding it gives the bytes back. Whether the
/// encoder can fail on a growing buffer is left unsaid.
#[verifier::external_body]
fn gzip(bytes: &[u8]) -> (r: Option<Vec<u8>>)
    ensures
        r matches Some(z) ==> z@ == gzip_of(bytes@),
        r matches Some(z) ==> gunzip_of(z@) == Some(bytes@),
{
    let mut encoder = flate2::write::GzEncoder::new(Vec::new(), flate2::Compression::default());
    match std::io::Write::write_all(&mut encoder, bytes) {
        Ok(()) => {},
        Err(_) => return None,
    }
    match encoder.finish() {
        Ok(z) => Some(z),
        Err(_) => None,
    }
}

/// flate2's `GzDecoder` over the bytes, read to the end: the named contents.
#[verifier::external_body]
fn gunzip(bytes: &[u8]) -> (r: Option<Vec<u8>>)
    ensures
        opt_bytes(r) == gunzip_of(bytes@),
{
    let mut out: Vec<u8> = Vec::new();
    match std::io::Read::read_to_end(&mut flate2::read::GzDecoder::new(bytes), &mut out) {
        Ok(_) => Some(out),
        Err(_) => None,
    }
}

/// The bytes of a project file that holds this JSON: gzipped, since
/// transcripts dominate the size and compress well. Reading the file back
/// gives exactly this JSON.
pub fn pack_project(json: &[u8]) -> (r: Option<Vec<u8>>)
    ensures
        r matches Some(z) ==> z@ == gzip_of(json@),
        r matches Some(z) ==> gunzip_of(z@) == Some(json@),
{
    gzip(json)
}

/// The JSON a project file holds; none when the file is not one (not gzip,
/// cut short, or damaged).
pub fn unpack_project(file: &[u8]) -> (r: Option<Vec<u8>>)
    ensures
        opt_bytes(r) == gunzip_of(file@),
{
    gunzip(file)
}

/// Which key holds a chaptr list: the current one when it holds a list,
/// else the one older projects used, when that holds a list.
pub fn list_key(chaptrs_is_list: bool, beats_is_list: bool) -> (r: Option<&'static str>)
    ensures
        chaptrs_is_list ==> r == Some("chaptrs"),
        !chaptrs_is_list && beats_is_list ==> r == Some("beats"),
        !chaptrs_is_list && !beats_is_list ==> r is None,
{
    if chaptrs_is_list {
        Some("chaptrs")
    } else if beats_is_list {
        Some("beats")
    } else {
        None
    }
}

/// A path whose file name carries an extension.
pub open spec fn has_extension(p: Seq<char>) -> bool {
    match base_name(p) {
        Some(n) => extension(n) is Some,
        None => false,
    }
}

/// Where a project is saved: the path asked for, else where it was saved
/// before, with the project extension added when the name has none.
pub open spec fn spec_project_file(requested: Option<Seq<char>>, saved: Option<Seq<char>>) -> Option<
    Seq<char>,
> {
    let chosen = match requested {
        Some(r) => Some(r),
        None => saved,
    };
    match chosen {
        Some(d) => Some(
            if has_extension(d) {
                d
            } else {
                spec_with_extension(d, "chaptr"@)
            },
        ),
        None => None,
    }
}

fn has_extension_exec(p: &str) -> (b: bool)
    ensures
        b == has_extension(p@),
{
    match file_name(p) {
        Some(n) => extension_of(n.as_str()).is_some(),
        None => false,
    }
}

/// Where to save the project, or why there is nowhere yet.
pub fn project_file(requested: Option<String>, saved: Option<String>) -> (r: Result<String, String>)
    ensures
        ({
            let req = match requested {
                Some(s) => Some(s@),
                None => None,
            };
            let sav = match saved {
                Some(s) => Some(s@),
                None => None,
            };
            &&& r is Ok <==> spec_project_file(req, sav) is Some
            &&& r matches Ok(p) ==> spec_project_file(req, sav) == Some(p@)
            &&& r matches Err(e) ==> e@ == "no file chosen yet"@
        }),
{
    let chosen = match requested {
        Some(r) => Some(r),
        None => saved,
    };
    match chosen {
        None => Err(owned("no file chosen yet")),
        Some(d) => {
            if has_extension_exec(d.as_str()) {
                Ok(d)
            } else {
                Ok(with_extension(d.as_str(), EXTENSION))
            }
        },
    }
}

/// `Path::file_stem`: the file name without its extension.
pub open spec fn spec_file_stem(p: Seq<char>) -> Option<Seq<char>> {
    match base_name(p) {
        Some(n) => Some(
            match extension(n) {
                Some(x) => n.take(n.len() - x.len() - 1),
                None => n,
            },
        ),
        None => None,
    }
}

/// The name a saved or opened project goes by: its file's stem, or the
/// name it had when the path has none.
pub fn saved_name(path: &str, name: &str) -> (r: String)
    ensures
        r@ == (match spec_file_stem(path@) {
            Some(s) => s,
            None => name@,
        }),
{
    match file_name(path) {
        None => owned(name),
        Some(n) => match extension_of(n.as_str()) {
            None => n,
            Some(x) => {
                let v = crate::text::chars_of(n.as_str());
                let len = v.len();
                let xv = crate::text::chars_of(x.as_str());
                assert(xv@.len() + 1 <= v@.len());
                crate::text::string_of(&v, 0, len - xv.len() - 1)
            },
        },
    }
}

/// Where a bundle is written before it replaces the saved file, so an
/// interrupted save cannot truncate a file that was already good.
pub fn temporary_file(dest: &str) -> (r: String)
    ensures
        r@ == spec_with_extension(dest@, "chaptr.part"@),
{
    with_extension(dest, "chaptr.part")
}

/// A file in the transcripts folder that holds a transcript.
pub fn is_transcript_file(path: &str) -> (b: bool)
    ensures
        b == (match base_name(path@) {
            Some(n) => extension(n) == Some("json"@),
            None => false,
        }),
{
    match file_name(path) {
        None => false,
        Some(n) => match extension_of(n.as_str()) {
            None => false,
            Some(x) => crate::text::same_text(x.as_str(), "json"),
        },
    }
}

/// What must be in place before a pass can run, by name: the missing
/// tools, then the speech and voice-activity models, then the language
/// model when it runs locally, or the API key when it runs in the cloud.
pub open spec fn spec_check_sidecars(
    tools: Seq<Seq<char>>,
    speech_model: bool,
    vad_model: bool,
    prefs: Prefs,
    local_model: bool,
) -> Seq<Seq<char>> {
    tools + (if speech_model { seq![] } else { seq!["speech model"@] }) + (if vad_model {
        seq![]
    } else {
        seq!["voice-activity model"@]
    }) + (if prefs.engine == Engine::Local && !local_model {
        seq!["language model"@]
    } else {
        seq![]
    }) + (if prefs.engine == Engine::Cloud && provider_key(prefs).len() == 0 {
        seq!["API key"@]
    } else {
        seq![]
    })
}

/// Everything that must exist before a job can run. Models are included
/// because a missing one otherwise surfaces deep into a long pass.
pub fn check_sidecars(
    tools: Vec<String>,
    speech_model: bool,
    vad_model: bool,
    prefs: &Prefs,
    local_model: bool,
) -> (r: Vec<String>)
    ensures
        crate::text::views(r@) == spec_check_sidecars(
            crate::text::views(tools@),
            speech_model,
            vad_model,
            *prefs,
            local_model,
        ),
{
    let mut r = tools;
    let ghost t0 = crate::text::views(r@);
    if !speech_model {
        r.push(owned("speech model"));
    }
    let ghost t1 = crate::text::views(r@);
    assert(t1 == t0 + (if speech_model { seq![] } else { seq!["speech model"@] }));
    if !vad_model {
        r.push(owned("voice-activity model"));
    }
    let ghost t2 = crate::text::views(r@);
    assert(t2 == t1 + (if vad_model { seq![] } else { seq!["voice-activity model"@] }));
    let local = match prefs.engine {
        Engine::Local => true,
        Engine::Cloud => false,
    };
    if local && !local_model {
        r.push(owned("language model"));
    }
    let ghost t3 = crate::text::views(r@);
    assert(t3 == t2 + (if prefs.engine == Engine::Local && !local_model {
        seq!["language model"@]
    } else {
        seq![]
    }));
    let key = prefs.key();
    let kv = crate::text::chars_of(key);
    if !local && kv.len() == 0 {
        r.push(owned("API key"));
    }
    assert(crate::text::views(r@) == t3 + (if prefs.engine == Engine::Cloud && provider_key(
        *prefs,
    ).len() == 0 {
        seq!["API key"@]
    } else {
        seq![]
    }));
    r
}

} // verus!
