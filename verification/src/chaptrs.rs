//! Turning transcripts into chaptrs: the language-model endpoint, the prompt
//! it is given, and which of its answers are kept.
use vstd::prelude::*;

use crate::prefs::{Engine, Prefs, Provider, provider_key};
use crate::text::{
    concat, count_shared, decimal, keep_longer, lowercase, owned, push_decimal, push_str,
    push_two_digits, split_words, to_lowercase, trim, trimmed, two_digits, views, words_over,
    Split,
};

verus! {

/// A cloud endpoint for the language model.
#[derive(Debug, Clone)]
pub struct Remote {
    pub provider: Provider,
    pub model: String,
    pub key: String,
    pub base_url: String,
}

/// `s` without trailing '/' characters (`trim_end_matches('/')`).
pub open spec fn strip_slashes(s: Seq<char>) -> Seq<char>
    decreases s.len(),
{
    if s.len() > 0 && s.last() == '/' {
        strip_slashes(s.drop_last())
    } else {
        s
    }
}

/// The chat endpoint a remote model is reached at.
pub open spec fn endpoint_of(r: Remote) -> Seq<char> {
    if trimmed(r.base_url@).len() > 0 {
        strip_slashes(r.base_url@) + "/chat/completions"@
    } else {
        match r.provider {
            Provider::Anthropic => "https://api.anthropic.com/v1/messages"@,
            Provider::Openai => "https://api.openai.com/v1/chat/completions"@,
            Provider::Google => "https://generativelanguage.googleapis.com/v1beta/openai/chat/completions"@,
            Provider::Compatible => "http://127.0.0.1:8899/v1/chat/completions"@,
        }
    }
}

fn strip_trailing_slashes(s: &str) -> (r: String)
    ensures
        r@ == strip_slashes(s@),
{
    let v = crate::text::chars_of(s);
    let mut e = v.len();
    assert(s@.take(e as int) == s@);
    while e > 0 && v[e - 1] == '/'
        invariant
            v@ == s@,
            e <= v@.len(),
            strip_slashes(s@) == strip_slashes(s@.take(e as int)),
        decreases e,
    {
        proof {
            assert(s@.take(e as int).drop_last() == s@.take(e - 1));
        }
        e = e - 1;
    }
    proof {
        assert(strip_slashes(s@.take(e as int)) == s@.take(e as int));
        assert(s@.subrange(0, e as int) == s@.take(e as int));
    }
    crate::text::string_of(&v, 0, e)
}

impl Remote {
    /// The remote model the preferences ask for: none when the local engine
    /// is chosen or no key is set for the chosen provider.
    pub fn from(p: &Prefs) -> (r: Option<Remote>)
        ensures
            r is None <==> (p.engine != Engine::Cloud || provider_key(*p).len() == 0),
            r matches Some(m) ==> {
                &&& m.provider == p.cloud_provider
                &&& m.model@ == p.cloud_model@
                &&& m.key@ == provider_key(*p)
                &&& m.base_url@ == p.cloud_base_url@
            },
    {
        let key = p.key();
        if p.engine != Engine::Cloud || key.is_empty() {
            return None;
        }
        Some(Remote {
            provider: p.cloud_provider,
            model: p.cloud_model.clone(),
            key: owned(key),
            base_url: p.cloud_base_url.clone(),
        })
    }

    /// Where requests go: a custom base URL when one is set, otherwise the
    /// provider's own endpoint.
    pub fn endpoint(&self) -> (r: String)
        ensures
            r@ == endpoint_of(*self),
    {
        let t = trim(self.base_url.as_str());
        if !t.as_str().is_empty() {
            let base = strip_trailing_slashes(self.base_url.as_str());
            return concat(base.as_str(), "/chat/completions");
        }
        match self.provider {
            Provider::Anthropic => owned("https://api.anthropic.com/v1/messages"),
            Provider::Openai => owned("https://api.openai.com/v1/chat/completions"),
            Provider::Google => owned("https://generativelanguage.googleapis.com/v1beta/openai/chat/completions"),
            Provider::Compatible => owned("http://127.0.0.1:8899/v1/chat/completions"),
        }
    }
}

/// What the footage is and which names to expect, as the prompt states it.
pub open spec fn context_of(subject: Seq<char>, notes: Seq<char>) -> Seq<char> {
    let base = "This recording is "@ + subject + "."@;
    if trimmed(notes).len() > 0 {
        base + " Names and terms you may hear: "@ + trimmed(notes) + "."@
    } else {
        base
    }
}

/// The prompt for one window of transcript lines from `t0` to `t1`.
pub open spec fn prompt_text(subject: Seq<char>, notes: Seq<char>, min: usize, max: usize, lines: Seq<char>, t0: Seq<char>, t1: Seq<char>) -> Seq<char> {
    let context = context_of(subject, notes);
    "Audio from a recording, "@
        + t0
        + " to "@
        + t1
        + ". "@
        + context
        + "\nYou hear people talking. You cannot see the screen, so infer what is happening.\n\n"@
        + lines
        + "\n\nLog the moments an editor would want to find again: things that happened,\ndecisions made, and exchanges that are genuinely funny or memorable.\n\nWrite the event, not the speech act:\n  \"I'm dead\"      -> \"they died\"\n  \"double kill\"   -> \"they got a double kill\"\n  \"let's regroup\" -> \"the team regrouped\"\nFor a funny or notable exchange, log what it was ABOUT:\n  -> \"they argued about who caused the wipe\"\nDo not quote a line verbatim as if it were the event.\n\nUse a name whenever the transcript says one. \"a player\" or \"the team\" is fine\nwhen you cannot tell who acted. Avoid \"someone\".\n\nEach beat: a subject and a past-tense verb, 5 to 12 words.\nGive "@
        + decimal(min as nat + 1)
        + " to "@
        + decimal(max as nat)
        + " beats, spread across "@
        + t0
        + "-"@
        + t1
        + ". Return fewer only if this\nstretch is almost silent. t copied exactly from a timestamp above."@
}

/// Asks for between `min + 1` and `max` beats over the window, with the
/// subject and expected names from the project's settings.
pub fn prompt(subject: &str, notes: &str, min: usize, max: usize, lines: &str, t0: &str, t1: &str) -> (out: String)
    requires
        min < usize::MAX,
    ensures
        out@ == prompt_text(subject@, notes@, min, max, lines@, t0@, t1@),
{
    let mut context = concat("This recording is ", subject);
    push_str(&mut context, ".");
    let n = trim(notes);
    if !n.as_str().is_empty() {
        push_str(&mut context, " Names and terms you may hear: ");
        push_str(&mut context, n.as_str());
        push_str(&mut context, ".");
    }
    let mut out = String::new();
    push_str(&mut out, "Audio from a recording, ");
    push_str(&mut out, t0);
    push_str(&mut out, " to ");
    push_str(&mut out, t1);
    push_str(&mut out, ". ");
    push_str(&mut out, context.as_str());
    push_str(&mut out, "\nYou hear people talking. You cannot see the screen, so infer what is happening.\n\n");
    push_str(&mut out, lines);
    push_str(&mut out, "\n\nLog the moments an editor would want to find again: things that happened,\ndecisions made, and exchanges that are genuinely funny or memorable.\n\nWrite the event, not the speech act:\n  \"I'm dead\"      -> \"they died\"\n  \"double kill\"   -> \"they got a double kill\"\n  \"let's regroup\" -> \"the team regrouped\"\nFor a funny or notable exchange, log what it was ABOUT:\n  -> \"they argued about who caused the wipe\"\nDo not quote a line verbatim as if it were the event.\n\nUse a name whenever the transcript says one. \"a player\" or \"the team\" is fine\nwhen you cannot tell who acted. Avoid \"someone\".\n\nEach beat: a subject and a past-tense verb, 5 to 12 words.\nGive ");
    push_decimal(&mut out, (min as u64) + 1);
    push_str(&mut out, " to ");
    push_decimal(&mut out, max as u64);
    push_str(&mut out, " beats, spread across ");
    push_str(&mut out, t0);
    push_str(&mut out, "-");
    push_str(&mut out, t1);
    push_str(&mut out, ". Return fewer only if this\nstretch is almost silent. t copied exactly from a timestamp above.");
    out
}

/// The words of a beat that count for duplicate detection: lowercased,
/// split on whitespace, longer than three bytes, repeats kept.
pub open spec fn beat_words(text: Seq<char>) -> Seq<Seq<char>> {
    words_over(Split::Whitespace, lowercase(text), 3)
}

/// Two beats' wording says the same thing: either has no long words, or
/// at least half the words of the shorter occur in the other (counting
/// the first's words with repeats).
pub open spec fn same_beat_words(a: Seq<char>, b: Seq<char>) -> bool {
    let x = beat_words(a);
    let y = beat_words(b);
    let shared = x.filter(|w: Seq<char>| y.contains(w)).len();
    let smaller = if x.len() <= y.len() {
        x.len()
    } else {
        y.len()
    };
    x.len() == 0 || y.len() == 0 || 2 * shared >= smaller
}

proof fn lemma_filter_keeps_all(x: Seq<Seq<char>>, p: spec_fn(Seq<char>) -> bool)
    requires
        forall|i: int| 0 <= i < x.len() ==> p(#[trigger] x[i]),
    ensures
        x.filter(p) == x,
    decreases x.len(),
{
    reveal(Seq::filter);
    if x.len() > 0 {
        lemma_filter_keeps_all(x.drop_last(), p);
        assert(x.drop_last().push(x.last()) == x);
    }
}

/// A beat whose long words all occur in another beat duplicates it: the
/// test measures against the shorter beat, so the other may say much more.
/// The other way round, counting the longer beat's words that occur in the
/// contained one, this holds when the contained beat repeats no long word.
pub proof fn law_contained_beat_duplicates(a: Seq<char>, b: Seq<char>)
    requires
        forall|i: int| 0 <= i < beat_words(a).len() ==> beat_words(b).contains(#[trigger] beat_words(a)[i]),
    ensures
        same_beat_words(a, b),
        beat_words(a).no_duplicates() ==> same_beat_words(b, a),
{
    broadcast use vstd::seq_lib::group_filter_ensures;

    let x = beat_words(a);
    let y = beat_words(b);
    lemma_filter_keeps_all(x, |w: Seq<char>| y.contains(w));
    assert(x.filter(|w: Seq<char>| y.contains(w)).len() == x.len());
    if x.no_duplicates() && x.len() > 0 && y.len() > 0 {
        let f = y.filter(|w: Seq<char>| x.contains(w));
        assert forall|w: Seq<char>| x.to_set().contains(w) implies f.to_set().contains(w) by {
            let i = choose|i: int| 0 <= i < x.len() && x[i] == w;
            assert(y.contains(x[i]));
            let j = choose|j: int| 0 <= j < y.len() && y[j] == w;
            assert(x.contains(y[j]));
            y.lemma_filter_contains(|w: Seq<char>| x.contains(w), j);
        }
        vstd::seq_lib::seq_to_set_is_finite(f);
        vstd::set_lib::lemma_len_subset(x.to_set(), f.to_set());
        f.lemma_cardinality_of_set();
        x.unique_seq_to_set();
    }
}

fn beat_word_list(text: &str) -> (r: Vec<String>)
    ensures
        views(r@) == beat_words(text@),
{
    let lower = to_lowercase(text);
    let all = split_words(Split::Whitespace, lower.as_str());
    keep_longer(&all, 3)
}

/// The wording half of the duplicate test for two beats that lie within 45
/// seconds of each other (neighbouring windows overlap). Time proximity
/// alone is too eager; wording alone misses rephrasings, so both are
/// required.
pub fn duplicate_wording(a: &str, b: &str) -> (r: bool)
    ensures
        r == same_beat_words(a@, b@),
{
    let x = beat_word_list(a);
    let y = beat_word_list(b);
    assert(views(x@).len() == x@.len() && views(y@).len() == y@.len());
    if x.len() == 0 || y.len() == 0 {
        return true;
    }
    let shared = count_shared(&x, &y);
    let smaller = if x.len() <= y.len() { x.len() } else { y.len() };
    (shared as u128) * 2 >= smaller as u128
}

/// A timestamp of whole seconds as `mm:ss` (minutes are not wrapped).
pub open spec fn clock_text(secs: nat) -> Seq<char> {
    two_digits(secs / 60) + ":"@ + two_digits(secs % 60)
}

/// `format!("{:02}:{:02}", s / 60, s % 60)`.
pub fn clock(secs: u64) -> (r: String)
    ensures
        r@ == clock_text(secs as nat),
{
    let mut r = String::new();
    push_two_digits(&mut r, secs / 60);
    push_str(&mut r, ":");
    push_two_digits(&mut r, secs % 60);
    r
}

/// One transcript line as the model sees it: `[mm:ss] text`.
pub fn transcript_line(secs: u64, text: &str) -> (r: String)
    ensures
        r@ == "["@ + clock_text(secs as nat) + "] "@ + text@,
{
    let mut r = owned("[");
    let c = clock(secs);
    push_str(&mut r, c.as_str());
    push_str(&mut r, "] ");
    push_str(&mut r, text);
    r
}

impl Remote {
    /// Anthropic's own API takes its own request shape; with a custom base
    /// URL every provider is spoken to in the OpenAI chat format.
    pub fn native_messages(&self) -> (b: bool)
        ensures
            b == (self.provider == Provider::Anthropic && trimmed(self.base_url@).len() == 0),
    {
        let t = trim(self.base_url.as_str());
        match self.provider {
            Provider::Anthropic => t.as_str().is_empty(),
            _ => false,
        }
    }

    /// The `authorization` header of an OpenAI-format request.
    pub fn authorization(&self) -> (r: String)
        ensures
            r@ == "Bearer "@ + self.key@,
    {
        concat("Bearer ", self.key.as_str())
    }
}

/// The port a local llama-server listens on.
pub const LOCAL_PORT: u16 = 8899;

/// What the model is told it is doing, before every window.
pub const SYSTEM: &'static str = "You index recordings so an editor can find moments again later. You log what happened, concisely and concretely.";

/// `http://127.0.0.1:<port>` followed by `path`.
pub open spec fn local_address(port: u16, path: Seq<char>) -> Seq<char> {
    "http://127.0.0.1:"@ + decimal(port as nat) + path
}

/// The chat endpoint of a local llama-server.
pub fn local_url(port: u16) -> (r: String)
    ensures
        r@ == local_address(port, "/v1/chat/completions"@),
{
    let mut r = owned("http://127.0.0.1:");
    push_decimal(&mut r, port as u64);
    push_str(&mut r, "/v1/chat/completions");
    r
}

/// The health endpoint a starting llama-server answers once it is ready.
pub fn health_url(port: u16) -> (r: String)
    ensures
        r@ == local_address(port, "/health"@),
{
    let mut r = owned("http://127.0.0.1:");
    push_decimal(&mut r, port as u64);
    push_str(&mut r, "/health");
    r
}

/// llama-server's arguments: the model, every layer on the GPU, the
/// context size, and the port, on the loopback interface only.
pub open spec fn spec_llama_args(model: Seq<char>, context: nat, port: u16) -> Seq<Seq<char>> {
    seq![
        "-m"@,
        model,
        "-ngl"@,
        "99"@,
        "-c"@,
        decimal(context),
        "--port"@,
        decimal(port as nat),
        "--host"@,
        "127.0.0.1"@,
    ]
}

/// The arguments that start a local llama-server.
pub fn llama_args(model: &str, context: usize, port: u16) -> (r: Vec<String>)
    ensures
        views(r@) == spec_llama_args(model@, context as nat, port),
{
    let r = vec![
        owned("-m"),
        owned(model),
        owned("-ngl"),
        owned("99"),
        owned("-c"),
        crate::text::decimal_string(context as u64),
        owned("--port"),
        crate::text::decimal_string(port as u64),
        owned("--host"),
        owned("127.0.0.1"),
    ];
    assert(views(r@) =~= spec_llama_args(model@, context as nat, port));
    r
}

} // verus!
