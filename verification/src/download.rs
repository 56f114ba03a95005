//! Fetching models: the bookkeeping of a resumable download. The bytes move
//! elsewhere; what is decided here is where a transfer starts, how big it
//! is, and whether it finished.
use vstd::prelude::*;

use std::sync::atomic::AtomicBool;
use std::sync::Arc;

use crate::text::{decimal, owned, parse_u64, push_decimal, push_str, spec_parse_u64};

verus! {

/// Reported as a download proceeds: several gigabytes over a domestic
/// connection is long enough that silence looks like a hang.
#[derive(Debug, Clone)]
pub struct DownloadProgress {
    pub id: String,
    pub file: String,
    pub received: u64,
    pub total: u64,
    pub done: bool,
    pub error: Option<String>,
}

/// The flag that stops the download in progress.
#[derive(Default)]
pub struct Downloads {
    pub cancel: Arc<AtomicBool>,
}

/// Where a transfer stands once the server has answered: the size of the
/// whole file, when known (0 when not), and how much of it is on disk.
#[derive(Debug, Clone, Copy, PartialEq, Eq, Structural)]
pub struct Resume {
    pub total: u64,
    pub received: u64,
    /// The server sent the rest of a part-finished file, so the bytes are
    /// appended to it rather than written over it.
    pub append: bool,
}

/// The `Range` header that asks for everything after the `have` bytes
/// already on disk, sent only when there are some.
pub fn range_header(have: u64) -> (r: Option<String>)
    ensures
        r is None <==> have == 0,
        r matches Some(h) ==> h@ == "bytes="@ + decimal(have as nat) + "-"@,
{
    if have == 0 {
        return None;
    }
    let mut h = owned("bytes=");
    push_decimal(&mut h, have);
    push_str(&mut h, "-");
    Some(h)
}

/// A partial-content answer (206) resumes the file; any other starts over.
/// The content length, unreadable counting as 0, is the rest of the file
/// when resuming and the whole of it otherwise.
pub open spec fn spec_resume(have: u64, status: u16, content_length: Option<Seq<char>>) -> Resume {
    let remaining: u64 = match content_length {
        Some(t) => match spec_parse_u64(t) {
            Some(n) => n,
            None => 0,
        },
        None => 0,
    };
    if status == 206 {
        Resume { total: (have + remaining) as u64, received: have, append: true }
    } else {
        Resume { total: remaining, received: 0, append: false }
    }
}

/// How the transfer starts, from the bytes already on disk and the server's
/// answer. `None` when a resumed file would be larger than a `u64` counts.
pub fn resume(have: u64, status: u16, content_length: Option<&str>) -> (r: Option<Resume>)
    ensures
        ({
            let cl = match content_length {
                Some(t) => Some(t@),
                None => None,
            };
            let s = spec_resume(have, status, cl);
            let remaining: int = match cl {
                Some(t) => match spec_parse_u64(t) {
                    Some(n) => n as int,
                    None => 0,
                },
                None => 0,
            };
            &&& r is None <==> (status == 206 && have + remaining > u64::MAX)
            &&& r matches Some(x) ==> x == s
        }),
{
    let remaining: u64 = match content_length {
        Some(t) => match parse_u64(t) {
            Some(n) => n,
            None => 0,
        },
        None => 0,
    };
    if status == 206 {
        match have.checked_add(remaining) {
            Some(total) => Some(Resume { total, received: have, append: true }),
            None => None,
        }
    } else {
        Some(Resume { total: remaining, received: 0, append: false })
    }
}

/// The text of a transfer that stopped short.
pub open spec fn short_text(received: nat, total: nat) -> Seq<char> {
    "connection closed after "@ + decimal(received) + " of "@ + decimal(total)
        + " bytes; press download again to resume"@
}

/// Once the stream ends: done when the size was unknown or reached; else
/// the error that says how far it got, the partial file kept for a resume.
pub fn finished(received: u64, total: u64) -> (r: Result<u64, String>)
    ensures
        r is Ok <==> (total == 0 || received >= total),
        r matches Ok(n) ==> n == received,
        r matches Err(e) ==> e@ == short_text(received as nat, total as nat),
{
    if total > 0 && received < total {
        let mut e = owned("connection closed after ");
        push_decimal(&mut e, received);
        push_str(&mut e, " of ");
        push_decimal(&mut e, total);
        push_str(&mut e, " bytes; press download again to resume");
        Err(e)
    } else {
        Ok(received)
    }
}

/// A progress report for the download of model `id` into `file`.
pub fn progress(id: &str, file: &str, received: u64, total: u64, done: bool, error: Option<String>) -> (p: DownloadProgress)
    ensures
        p.id@ == id@,
        p.file@ == file@,
        p.received == received,
        p.total == total,
        p.done == done,
        p.error == error,
{
    DownloadProgress { id: owned(id), file: owned(file), received, total, done, error }
}

} // verus!
