//! The ffmpeg argument lists that pull audio out of a recording.
use vstd::prelude::*;

use crate::model::Recording;
use crate::text::{decimal, decimal_string, owned, push_decimal, push_str, views};

verus! {

/// whisper.cpp only accepts 16 kHz mono PCM.
pub const ASR_RATE: u32 = 16000;

/// `[0:a:0][0:a:1]...` for the first `n` audio streams.
pub open spec fn mix_inputs(n: nat) -> Seq<char>
    decreases n,
{
    if n == 0 {
        seq![]
    } else {
        mix_inputs((n - 1) as nat) + "[0:a:"@ + decimal((n - 1) as nat) + "]"@
    }
}

/// The filter that mixes `n` audio streams into one, none of them dropped.
pub open spec fn mix_filter(n: nat) -> Seq<char> {
    mix_inputs(n) + "amix=inputs="@ + decimal(n) + ":duration=longest:normalize=0,aresample=async=1[a]"@
}

/// With one track, take it; with several, mix them all, the only choice
/// that never silently discards someone's voice. Mono either way.
pub open spec fn spec_mix_args(n: nat) -> Seq<Seq<char>> {
    if n <= 1 {
        seq!["-map"@, "0:a:0"@, "-ac"@, "1"@]
    } else {
        seq!["-filter_complex"@, mix_filter(n), "-map"@, "[a]"@, "-ac"@, "1"@]
    }
}

/// The arguments that select and mix a recording's audio tracks.
pub fn mix_args(rec: &Recording) -> (r: Vec<String>)
    ensures
        views(r@) == spec_mix_args(rec.tracks@.len() as nat),
{
    let n = rec.tracks.len();
    if n <= 1 {
        let r = vec![owned("-map"), owned("0:a:0"), owned("-ac"), owned("1")];
        assert(views(r@) =~= spec_mix_args(n as nat));
        return r;
    }
    let mut inputs = String::new();
    let mut i: usize = 0;
    while i < n
        invariant
            i <= n,
            inputs@ == mix_inputs(i as nat),
        decreases n - i,
    {
        push_str(&mut inputs, "[0:a:");
        push_decimal(&mut inputs, i as u64);
        push_str(&mut inputs, "]");
        i = i + 1;
    }
    push_str(&mut inputs, "amix=inputs=");
    push_decimal(&mut inputs, n as u64);
    push_str(&mut inputs, ":duration=longest:normalize=0,aresample=async=1[a]");
    let r = vec![
        owned("-filter_complex"),
        inputs,
        owned("-map"),
        owned("[a]"),
        owned("-ac"),
        owned("1"),
    ];
    assert(views(r@) =~= spec_mix_args(n as nat));
    r
}

/// `-i <recording>`, the mix, then a 16 kHz mono WAV at `dest`.
pub open spec fn spec_asr_args(path: Seq<char>, n: nat, dest: Seq<char>) -> Seq<Seq<char>> {
    seq!["-i"@, path] + spec_mix_args(n) + seq![
        "-vn"@,
        "-ar"@,
        decimal(ASR_RATE as nat),
        "-c:a"@,
        "pcm_s16le"@,
        dest,
    ]
}

/// `-i <recording>`, the mix, then a small Opus file at `dest`, about
/// 11 MB per hour of footage.
pub open spec fn spec_preview_args(path: Seq<char>, n: nat, dest: Seq<char>) -> Seq<Seq<char>> {
    seq!["-i"@, path] + spec_mix_args(n) + seq![
        "-vn"@,
        "-c:a"@,
        "libopus"@,
        "-b:a"@,
        "24k"@,
        "-application"@,
        "voip"@,
        dest,
    ]
}

fn append_all(r: &mut Vec<String>, more: Vec<String>)
    ensures
        views(final(r)@) == views(old(r)@) + views(more@),
{
    let ghost start = r@;
    let mut i: usize = 0;
    while i < more.len()
        invariant
            i <= more@.len(),
            views(r@) == views(start) + views(more@).take(i as int),
        decreases more@.len() - i,
    {
        let ghost before = r@;
        r.push(owned(more[i].as_str()));
        proof {
            assert(views(r@) == views(before).push(more@[i as int]@));
            assert(views(more@).take(i + 1) == views(more@).take(i as int).push(more@[i as int]@));
        }
        i = i + 1;
    }
    assert(views(more@).take(more@.len() as int) == views(more@));
}

/// The ffmpeg arguments that write the WAV whisper transcribes.
pub fn asr_args(rec: &Recording, dest: &str) -> (r: Vec<String>)
    ensures
        views(r@) == spec_asr_args(rec.path@, rec.tracks@.len() as nat, dest@),
{
    let mut r = vec![owned("-i"), owned(rec.path.as_str())];
    append_all(&mut r, mix_args(rec));
    let tail = vec![
        owned("-vn"),
        owned("-ar"),
        decimal_string(ASR_RATE as u64),
        owned("-c:a"),
        owned("pcm_s16le"),
        owned(dest),
    ];
    append_all(&mut r, tail);
    assert(views(r@) =~= spec_asr_args(rec.path@, rec.tracks@.len() as nat, dest@));
    r
}

/// The ffmpeg arguments that write the preview kept for listening to a
/// chaptr.
pub fn preview_args(rec: &Recording, dest: &str) -> (r: Vec<String>)
    ensures
        views(r@) == spec_preview_args(rec.path@, rec.tracks@.len() as nat, dest@),
{
    let mut r = vec![owned("-i"), owned(rec.path.as_str())];
    append_all(&mut r, mix_args(rec));
    let tail = vec![
        owned("-vn"),
        owned("-c:a"),
        owned("libopus"),
        owned("-b:a"),
        owned("24k"),
        owned("-application"),
        owned("voip"),
        owned(dest),
    ];
    append_all(&mut r, tail);
    assert(views(r@) =~= spec_preview_args(rec.path@, rec.tracks@.len() as nat, dest@));
    r
}

/// What every ffmpeg run starts with: quiet, no prompts, progress on stdout,
/// overwrite.
pub open spec fn spec_ffmpeg_args(args: Seq<Seq<char>>) -> Seq<Seq<char>> {
    seq!["-hide_banner"@, "-nostdin"@, "-loglevel"@, "error"@, "-progress"@, "pipe:1"@, "-y"@]
        + args
}

/// The full argument list of an ffmpeg run.
pub fn ffmpeg_args(args: Vec<String>) -> (r: Vec<String>)
    ensures
        views(r@) == spec_ffmpeg_args(views(args@)),
{
    let mut r = vec![
        owned("-hide_banner"),
        owned("-nostdin"),
        owned("-loglevel"),
        owned("error"),
        owned("-progress"),
        owned("pipe:1"),
        owned("-y"),
    ];
    append_all(&mut r, args);
    assert(views(r@) =~= spec_ffmpeg_args(views(args@)));
    r
}

/// A mono 16 kHz WAV of one track: `len` seconds from `start` (both as the
/// caller wrote them) of audio stream `track`.
pub open spec fn spec_sample_args(
    path: Seq<char>,
    track: nat,
    start: Seq<char>,
    len: Seq<char>,
    dest: Seq<char>,
) -> Seq<Seq<char>> {
    seq![
        "-ss"@,
        start,
        "-t"@,
        len,
        "-i"@,
        path,
        "-map"@,
        "0:a:"@ + decimal(track),
        "-vn"@,
        "-ac"@,
        "1"@,
        "-ar"@,
        decimal(ASR_RATE as nat),
        "-c:a"@,
        "pcm_s16le"@,
        dest,
    ]
}

/// The ffmpeg arguments that cut a sample of one track for whisper to hear
/// on its own.
pub fn sample_args(rec: &Recording, track: usize, start: &str, len: &str, dest: &str) -> (r: Vec<String>)
    ensures
        views(r@) == spec_sample_args(rec.path@, track as nat, start@, len@, dest@),
{
    let mut stream = owned("0:a:");
    push_decimal(&mut stream, track as u64);
    let r = vec![
        owned("-ss"),
        owned(start),
        owned("-t"),
        owned(len),
        owned("-i"),
        owned(rec.path.as_str()),
        owned("-map"),
        stream,
        owned("-vn"),
        owned("-ac"),
        owned("1"),
        owned("-ar"),
        decimal_string(ASR_RATE as u64),
        owned("-c:a"),
        owned("pcm_s16le"),
        owned(dest),
    ];
    assert(views(r@) =~= spec_sample_args(rec.path@, track as nat, start@, len@, dest@));
    r
}

} // verus!
