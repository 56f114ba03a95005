//! The data the pipeline works on, as the verified logic sees it.
use vstd::prelude::*;

verus! {

/// One audio stream of a recording.
#[derive(Debug, Clone)]
pub struct Track {
    pub index: u32,
    pub name: String,
    pub codec: String,
    pub channels: u32,
}

/// A recording as the track and library logic reads it. Times are measured
/// in floating point elsewhere; here a recording carries only an integer that
/// orders recordings as their durations do.
#[derive(Debug, Clone)]
pub struct Recording {
    pub id: String,
    pub path: String,
    pub name: String,
    /// Orders recordings by duration: a longer recording has a larger value.
    pub duration_order: u64,
    pub tracks: Vec<Track>,
}

} // verus!
