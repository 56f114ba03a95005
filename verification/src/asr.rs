//! Telling speech from noise in whisper's output: the part of a speech score
//! that counts words.
use vstd::prelude::*;

use crate::text::{
    char_is_alphanumeric, chars_of, decimal, decimal_string, distinct, is_alphanumeric, lowercase,
    owned, push_str, same_text, split_words, string_of, to_lowercase, tokens, trim, trimmed, views,
    Split,
};

verus! {

/// What whisper emits when handed audio with no speech in it.
pub open spec fn is_noise_marker(t: Seq<char>) -> bool {
    ||| t == "[blank_audio]"@
    ||| t == "[silence]"@
    ||| t == "(silence)"@
    ||| t == "[music]"@
    ||| t == "(music)"@
    ||| t == "[sound]"@
}

/// A line is noise when, trimmed and lowercased, it is one of whisper's
/// markers or holds no letter or digit at all.
pub open spec fn spec_is_noise(text: Seq<char>) -> bool {
    let t = lowercase(trimmed(text));
    is_noise_marker(t) || forall|i: int| 0 <= i < t.len() ==> !is_alphanumeric(#[trigger] t[i])
}

fn no_alphanumeric(s: &str) -> (b: bool)
    ensures
        b == forall|i: int| 0 <= i < s@.len() ==> !is_alphanumeric(#[trigger] s@[i]),
{
    let v = chars_of(s);
    let mut i: usize = 0;
    while i < v.len()
        invariant
            v@ == s@,
            i <= v@.len(),
            forall|j: int| 0 <= j < i ==> !is_alphanumeric(#[trigger] s@[j]),
        decreases v@.len() - i,
    {
        if char_is_alphanumeric(v[i]) {
            return false;
        }
        i = i + 1;
    }
    true
}

/// Whether whisper's line carries no speech.
pub fn is_noise(text: &str) -> (b: bool)
    ensures
        b == spec_is_noise(text@),
{
    let t = trim(text);
    let low = to_lowercase(t.as_str());
    let s = low.as_str();
    let marker = same_text(s, "[blank_audio]") || same_text(s, "[silence]") || same_text(
        s,
        "(silence)",
    ) || same_text(s, "[music]") || same_text(s, "(music)") || same_text(s, "[sound]");
    marker || no_alphanumeric(s)
}

/// Every string lowercased.
pub open spec fn lower_all(v: Seq<Seq<char>>) -> Seq<Seq<char>> {
    v.map_values(|w: Seq<char>| lowercase(w))
}

/// The words of a line that count as speech: a run of more than four words
/// made of at most two distinct words (letter case aside) is a
/// hallucination and counts for nothing.
pub open spec fn line_words(text: Seq<char>) -> nat {
    let ws = tokens(Split::Whitespace, text);
    if ws.len() > 4 && lower_all(ws).to_set().len() <= 2 {
        0
    } else {
        ws.len()
    }
}

/// The speech words of every line that is not noise, added up.
pub open spec fn speech_words_of(lines: Seq<Seq<char>>) -> nat
    decreases lines.len(),
{
    if lines.len() == 0 {
        0
    } else {
        speech_words_of(lines.drop_last()) + if spec_is_noise(lines.last()) {
            0
        } else {
            line_words(lines.last())
        }
    }
}

/// `line_words`, counted.
pub fn words_in_line(text: &str) -> (n: usize)
    ensures
        n == line_words(text@),
{
    let ws = split_words(Split::Whitespace, text);
    if ws.len() <= 4 {
        return ws.len();
    }
    let mut low: Vec<String> = Vec::new();
    let mut i: usize = 0;
    while i < ws.len()
        invariant
            i <= ws@.len(),
            views(low@) == lower_all(views(ws@).take(i as int)),
        decreases ws@.len() - i,
    {
        let l = to_lowercase(ws[i].as_str());
        let ghost before = low@;
        low.push(l);
        proof {
            assert(views(ws@).take(i + 1) == views(ws@).take(i as int).push(ws@[i as int]@));
            assert(views(low@) == views(before).push(l@));
            assert(lower_all(views(ws@).take(i + 1)) =~= lower_all(views(ws@).take(i as int)).push(
                lowercase(ws@[i as int]@),
            ));
        }
        i = i + 1;
    }
    assert(views(ws@).take(ws@.len() as int) == views(ws@));
    let unique = distinct(&low);
    if unique.len() <= 2 {
        0
    } else {
        ws.len()
    }
}

/// How many words of real conversation `lines` carry, saturating at
/// `u64::MAX`. Divided by the minutes sampled this gives a track's words
/// per minute: game audio scores near zero, voices in the hundreds.
pub fn speech_words(lines: &Vec<String>) -> (n: u64)
    ensures
        n == (if speech_words_of(views(lines@)) <= u64::MAX {
            speech_words_of(views(lines@))
        } else {
            u64::MAX as nat
        }),
{
    let mut total: u64 = 0;
    let mut i: usize = 0;
    while i < lines.len()
        invariant
            i <= lines@.len(),
            total == (if speech_words_of(views(lines@).take(i as int)) <= u64::MAX {
                speech_words_of(views(lines@).take(i as int))
            } else {
                u64::MAX as nat
            }),
        decreases lines@.len() - i,
    {
        proof {
            let t = views(lines@).take(i + 1);
            assert(t.drop_last() == views(lines@).take(i as int));
            assert(t.last() == lines@[i as int]@);
        }
        if !is_noise(lines[i].as_str()) {
            let w = words_in_line(lines[i].as_str());
            total = total.saturating_add(w as u64);
        }
        i = i + 1;
    }
    assert(views(lines@).take(lines@.len() as int) == views(lines@));
    total
}

/// `s` with every trailing copy of `k` removed (`trim_end_matches`).
pub open spec fn trim_suffixes(s: Seq<char>, k: Seq<char>) -> Seq<char>
    decreases s.len(),
{
    if k.len() > 0 && k.len() <= s.len() && s.subrange(s.len() - k.len(), s.len() as int) == k {
        trim_suffixes(s.take(s.len() - k.len()), k)
    } else {
        s
    }
}

proof fn lemma_wav_suffix(t: Seq<char>)
    requires
        t.len() >= 4,
    ensures
        (t.subrange(t.len() - 4, t.len() as int) == ".wav"@) <==> (t[t.len() - 4] == '.' && t[t.len()
            - 3] == 'w' && t[t.len() - 2] == 'a' && t[t.len() - 1] == 'v'),
{
    reveal_strlit(".wav");
    let u = t.subrange(t.len() - 4, t.len() as int);
    if t[t.len() - 4] == '.' && t[t.len() - 3] == 'w' && t[t.len() - 2] == 'a' && t[t.len() - 1] == 'v' {
        assert(u =~= ".wav"@);
    }
    if u == ".wav"@ {
        assert(u[0] == '.' && u[1] == 'w' && u[2] == 'a' && u[3] == 'v');
    }
}

/// The output stem whisper writes `<stem>.json` under: the WAV's path
/// without its ".wav". Not the extension rule: recordings' names carry a
/// ".t0" track marker that an extension rule would mistake and strip.
pub fn output_stem(wav: &str) -> (r: String)
    ensures
        r@ == trim_suffixes(wav@, ".wav"@),
{
    let v = chars_of(wav);
    let mut n: usize = v.len();
    assert(v@.take(n as int) == wav@);
    proof {
        reveal_strlit(".wav");
    }
    while n >= 4 && v[n - 4] == '.' && v[n - 3] == 'w' && v[n - 2] == 'a' && v[n - 1] == 'v'
        invariant
            n <= v@.len(),
            v@ == wav@,
            ".wav"@.len() == 4,
            trim_suffixes(wav@, ".wav"@) == trim_suffixes(v@.take(n as int), ".wav"@),
        decreases n,
    {
        proof {
            let t = v@.take(n as int);
            lemma_wav_suffix(t);
            assert(t.take(t.len() - 4) == v@.take(n - 4));
        }
        n = n - 4;
    }
    proof {
        let t = v@.take(n as int);
        if n >= 4 {
            lemma_wav_suffix(t);
        }
    }
    string_of(&v, 0, n)
}

/// Where whisper leaves its JSON for a WAV.
pub fn json_output(wav: &str) -> (r: String)
    ensures
        r@ == trim_suffixes(wav@, ".wav"@) + ".json"@,
{
    let mut r = output_stem(wav);
    push_str(&mut r, ".json");
    r
}

/// The text of a whisper segment that is kept: trimmed, and only when
/// something is left.
pub fn kept_text(text: &str) -> (r: Option<String>)
    ensures
        r is None <==> trimmed(text@).len() == 0,
        r matches Some(t) ==> t@ == trimmed(text@),
{
    let t = trim(text);
    let v = chars_of(t.as_str());
    if v.len() == 0 {
        None
    } else {
        Some(t)
    }
}

/// How many threads whisper runs: the machine's parallelism, at most 16,
/// or 8 when it cannot be told.
pub fn thread_count(available: Option<usize>) -> (n: usize)
    ensures
        n == (match available {
            Some(a) => if a < 16 { a } else { 16 },
            None => 8,
        }),
{
    match available {
        Some(a) => if a < 16 { a } else { 16 },
        None => 8,
    }
}

/// What whisper is asked to do with one WAV: model, input, language,
/// threads, voice-activity detection with its model and threshold, no
/// non-speech tokens, no printing, JSON output under the stem, and the
/// vocabulary as a prompt when there is one.
pub open spec fn spec_whisper_args(
    model: Seq<char>,
    wav: Seq<char>,
    language: Seq<char>,
    threads: nat,
    vad_model: Seq<char>,
    threshold: Seq<char>,
    vocabulary: Seq<char>,
) -> Seq<Seq<char>> {
    seq![
        "-m"@,
        model,
        "-f"@,
        wav,
        "-l"@,
        language,
        "-t"@,
        decimal(threads),
        "--vad"@,
        "-vm"@,
        vad_model,
        "-vt"@,
        threshold,
        "-sns"@,
        "-np"@,
        "-pp"@,
        "-oj"@,
        "-of"@,
        trim_suffixes(wav, ".wav"@),
    ] + if trimmed(vocabulary).len() == 0 {
        seq![]
    } else {
        seq!["--prompt"@, trimmed(vocabulary)]
    }
}

/// The whisper-cli arguments for one WAV. The threshold is passed as the
/// text it is written as.
pub fn whisper_args(
    model: &str,
    wav: &str,
    language: &str,
    threads: usize,
    vad_model: &str,
    threshold: &str,
    vocabulary: &str,
) -> (r: Vec<String>)
    ensures
        views(r@) == spec_whisper_args(
            model@,
            wav@,
            language@,
            threads as nat,
            vad_model@,
            threshold@,
            vocabulary@,
        ),
{
    let mut r = vec![
        owned("-m"),
        owned(model),
        owned("-f"),
        owned(wav),
        owned("-l"),
        owned(language),
        owned("-t"),
        decimal_string(threads as u64),
        owned("--vad"),
        owned("-vm"),
        owned(vad_model),
        owned("-vt"),
        owned(threshold),
        owned("-sns"),
        owned("-np"),
        owned("-pp"),
        owned("-oj"),
        owned("-of"),
        output_stem(wav),
    ];
    let ghost head = views(r@);
    let prompt = trim(vocabulary);
    let pv = chars_of(prompt.as_str());
    if pv.len() > 0 {
        r.push(owned("--prompt"));
        r.push(prompt);
    }
    assert(views(r@) =~= spec_whisper_args(
        model@,
        wav@,
        language@,
        threads as nat,
        vad_model@,
        threshold@,
        vocabulary@,
    ));
    r
}

} // verus!
