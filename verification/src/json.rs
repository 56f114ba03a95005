//! JSON as the tools chaptr drives write it: ffprobe's report, whisper's
//! transcript, and a language model's reply. serde_json parses; what is read
//! out of the parsed tree is decided here.
use vstd::prelude::*;

use crate::text::{
    chars_of, owned, parse_u64, push_str, same_text, spec_parse_u64, string_of, trim, trimmed,
};

verus! {

/// A JSON value. Numbers are kept as the text serde_json writes them back
/// in; an object's members are kept in the order serde_json gives them.
#[derive(Debug)]
pub enum Json {
    Null,
    Bool(bool),
    Number(String),
    Text(String),
    Array(Vec<Json>),
    Object(Vec<(String, Json)>),
}

/// `serde_json::Value`, carried through unopened.
#[verifier::external_type_specification]
#[verifier::external_body]
pub struct ExJsonValue(serde_json::Value);

/// What `serde_json::from_slice::<serde_json::Value>` makes of these bytes,
/// as a `Json`; `None` when they are not JSON.
pub uninterp spec fn json_of(bytes: Seq<u8>) -> Option<Json>;

/// What `serde_json::from_str::<serde_json::Value>` makes of this text, as a
/// `Json`; `None` when it is not JSON.
pub uninterp spec fn json_text_of(text: Seq<char>) -> Option<Json>;

/// A `serde_json::Value` as a `Json`, one variant for one variant; numbers
/// become the text `Number`'s `Display` writes.
#[verifier::external_body]
fn tree_of(v: &serde_json::Value) -> Json {
    match v {
        serde_json::Value::Null => Json::Null,
        serde_json::Value::Bool(b) => Json::Bool(*b),
        serde_json::Value::Number(n) => Json::Number(n.to_string()),
        serde_json::Value::String(s) => Json::Text(s.clone()),
        serde_json::Value::Array(a) => Json::Array(a.iter().map(tree_of).collect()),
        serde_json::Value::Object(m) => Json::Object(m.iter().map(|(k, x)| (k.clone(), tree_of(x))).collect()),
    }
}

/// `serde_json::from_slice::<serde_json::Value>`: the contract names the
/// parsed tree; JSON's grammar is not restated here.
#[verifier::external_body]
fn parse_json(bytes: &[u8]) -> (r: Option<Json>)
    ensures
        r == json_of(bytes@),
{
    match serde_json::from_slice::<serde_json::Value>(bytes) {
        Ok(v) => Some(tree_of(&v)),
        Err(_) => None,
    }
}

/// `serde_json::from_str::<serde_json::Value>`: the contract names the
/// parsed tree; JSON's grammar is not restated here.
#[verifier::external_body]
fn parse_json_text(text: &str) -> (r: Option<Json>)
    ensures
        r == json_text_of(text@),
{
    match serde_json::from_str::<serde_json::Value>(text) {
        Ok(v) => Some(tree_of(&v)),
        Err(_) => None,
    }
}

/// The first member named `key`.
pub open spec fn member(entries: Seq<(String, Json)>, key: Seq<char>) -> Option<Json>
    decreases entries.len(),
{
    if entries.len() == 0 {
        None
    } else if entries[0].0@ == key {
        Some(entries[0].1)
    } else {
        member(entries.drop_first(), key)
    }
}

/// `v[key]`, when `v` is an object that has the member.
pub open spec fn get(v: Json, key: Seq<char>) -> Option<Json> {
    match v {
        Json::Object(entries) => member(entries@, key),
        _ => None,
    }
}

/// `v[key]` of a value that may be absent.
pub open spec fn get_in(v: Option<Json>, key: Seq<char>) -> Option<Json> {
    match v {
        Some(j) => get(j, key),
        None => None,
    }
}

/// `as_str`: the text of a string value.
pub open spec fn text_value(v: Option<Json>) -> Option<Seq<char>> {
    match v {
        Some(Json::Text(s)) => Some(s@),
        _ => None,
    }
}

/// The text of a number value.
pub open spec fn number_value(v: Option<Json>) -> Option<Seq<char>> {
    match v {
        Some(Json::Number(s)) => Some(s@),
        _ => None,
    }
}

/// `as_u64`: a number that is a whole number and fits.
pub open spec fn u64_value(v: Option<Json>) -> Option<u64> {
    match number_value(v) {
        Some(t) => spec_parse_u64(t),
        None => None,
    }
}

/// `as_array().unwrap_or(&empty)`: the items of an array, else none.
pub open spec fn items(v: Option<Json>) -> Seq<Json> {
    match v {
        Some(Json::Array(a)) => a@,
        _ => seq![],
    }
}

pub open spec fn deref_json(r: Option<&Json>) -> Option<Json> {
    match r {
        Some(x) => Some(*x),
        None => None,
    }
}

pub open spec fn opt_text(o: Option<String>) -> Option<Seq<char>> {
    match o {
        Some(s) => Some(s@),
        None => None,
    }
}

fn member_of<'a>(entries: &'a Vec<(String, Json)>, key: &str) -> (r: Option<&'a Json>)
    ensures
        deref_json(r) == member(entries@, key@),
{
    let mut i: usize = 0;
    assert(entries@.skip(0) == entries@);
    while i < entries.len()
        invariant
            i <= entries@.len(),
            member(entries@, key@) == member(entries@.skip(i as int), key@),
        decreases entries@.len() - i,
    {
        let ghost rest = entries@.skip(i as int);
        assert(rest[0] == entries@[i as int]);
        if crate::text::same_text(entries[i].0.as_str(), key) {
            return Some(&entries[i].1);
        }
        assert(rest.drop_first() == entries@.skip(i + 1));
        i = i + 1;
    }
    None
}

/// `v[key]`, when `v` is an object that has the member.
fn get_of<'a>(v: &'a Json, key: &str) -> (r: Option<&'a Json>)
    ensures
        deref_json(r) == get(*v, key@),
{
    match v {
        Json::Object(entries) => member_of(entries, key),
        _ => None,
    }
}

fn get_in_of<'a>(v: Option<&'a Json>, key: &str) -> (r: Option<&'a Json>)
    ensures
        deref_json(r) == get_in(deref_json(v), key@),
{
    match v {
        Some(j) => get_of(j, key),
        None => None,
    }
}

fn text_of(v: Option<&Json>) -> (r: Option<String>)
    ensures
        opt_text(r) == text_value(deref_json(v)),
{
    match v {
        Some(Json::Text(s)) => Some(owned(s.as_str())),
        _ => None,
    }
}

fn number_of(v: Option<&Json>) -> (r: Option<String>)
    ensures
        opt_text(r) == number_value(deref_json(v)),
{
    match v {
        Some(Json::Number(s)) => Some(owned(s.as_str())),
        _ => None,
    }
}

fn u64_of(v: Option<&Json>) -> (r: Option<u64>)
    ensures
        r == u64_value(deref_json(v)),
{
    match v {
        Some(Json::Number(s)) => parse_u64(s.as_str()),
        _ => None,
    }
}

fn items_of<'a>(v: Option<&'a Json>) -> (r: Option<&'a Vec<Json>>)
    ensures
        (match r {
            Some(a) => a@,
            None => seq![],
        }) == items(deref_json(v)),
{
    match v {
        Some(Json::Array(a)) => Some(a),
        _ => None,
    }
}

// ---- ffprobe ----

/// One audio stream as ffprobe reports it.
#[derive(Debug)]
pub struct StreamInfo {
    /// The stream's index, when it is a whole number that fits.
    pub index: Option<u64>,
    pub title: Option<String>,
    pub name: Option<String>,
    pub codec: Option<String>,
    pub channels: Option<u64>,
}

/// What a recording's ffprobe report says.
#[derive(Debug)]
pub struct Probed {
    /// `format.duration`, as the text ffprobe wrote.
    pub duration: Option<String>,
    /// The audio streams, in the report's order.
    pub audio: Vec<StreamInfo>,
}

/// A stream whose `codec_type` is "audio".
pub open spec fn is_audio(s: Json) -> bool {
    text_value(get(s, "codec_type"@)) == Some("audio"@)
}

/// The audio streams among `streams`, in order.
pub open spec fn audio_of(streams: Seq<Json>) -> Seq<Json>
    decreases streams.len(),
{
    if streams.len() == 0 {
        seq![]
    } else if is_audio(streams.last()) {
        audio_of(streams.drop_last()).push(streams.last())
    } else {
        audio_of(streams.drop_last())
    }
}

/// `info` holds what stream `s` says: index, title and name tags, codec
/// name and channel count.
pub open spec fn describes(info: StreamInfo, s: Json) -> bool {
    &&& info.index == u64_value(get(s, "index"@))
    &&& opt_text(info.title) == text_value(get_in(get(s, "tags"@), "title"@))
    &&& opt_text(info.name) == text_value(get_in(get(s, "tags"@), "name"@))
    &&& opt_text(info.codec) == text_value(get(s, "codec_name"@))
    &&& info.channels == u64_value(get(s, "channels"@))
}

fn stream_info(s: &Json) -> (r: StreamInfo)
    ensures
        describes(r, *s),
{
    let tags = get_of(s, "tags");
    StreamInfo {
        index: u64_of(get_of(s, "index")),
        title: text_of(get_in_of(tags, "title")),
        name: text_of(get_in_of(tags, "name")),
        codec: text_of(get_of(s, "codec_name")),
        channels: u64_of(get_of(s, "channels")),
    }
}

fn is_audio_of(s: &Json) -> (b: bool)
    ensures
        b == is_audio(*s),
{
    proof {
        reveal_strlit("audio");
    }
    match text_of(get_of(s, "codec_type")) {
        Some(t) => crate::text::same_text(t.as_str(), "audio"),
        None => false,
    }
}

/// Reads ffprobe's JSON report: the duration text and every audio stream in
/// order. `None` when the report is not JSON.
pub fn probe_output(stdout: &[u8]) -> (r: Option<Probed>)
    ensures
        r is None <==> json_of(stdout@) is None,
        r matches Some(p) ==> {
            let data = json_of(stdout@)->0;
            let audio = audio_of(items(get(data, "streams"@)));
            &&& opt_text(p.duration) == text_value(get_in(get(data, "format"@), "duration"@))
            &&& p.audio@.len() == audio.len()
            &&& forall|k: int| 0 <= k < audio.len() ==> describes(#[trigger] p.audio@[k], audio[k])
        },
{
    let data = match parse_json(stdout) {
        Some(d) => d,
        None => return None,
    };
    let duration = text_of(get_in_of(get_of(&data, "format"), "duration"));
    let mut audio: Vec<StreamInfo> = Vec::new();
    let ghost all = items(get(data, "streams"@));
    match items_of(get_of(&data, "streams")) {
        None => {
            assert(all == Seq::<Json>::empty());
        },
        Some(streams) => {
            let mut i: usize = 0;
            while i < streams.len()
                invariant
                    i <= streams@.len(),
                    all == streams@,
                    audio@.len() == audio_of(all.take(i as int)).len(),
                    forall|k: int|
                        0 <= k < audio@.len() ==> describes(#[trigger] audio@[k], audio_of(all.take(i as int))[k]),
                decreases streams@.len() - i,
            {
                proof {
                    let t = all.take(i + 1);
                    assert(t.drop_last() == all.take(i as int));
                    assert(t.last() == all[i as int]);
                }
                if is_audio_of(&streams[i]) {
                    let info = stream_info(&streams[i]);
                    audio.push(info);
                }
                i = i + 1;
            }
            assert(all.take(all.len() as int) == all);
        },
    }
    Some(Probed { duration, audio })
}

// ---- whisper ----

/// One line whisper heard: its text, trimmed, and its start and end
/// offsets as the numbers' text, in milliseconds.
#[derive(Debug)]
pub struct RawSegment {
    pub text: String,
    pub from: String,
    pub to: String,
}

/// The line an item of whisper's `transcription` gives: text present and
/// not blank once trimmed, and both offsets present as numbers.
pub open spec fn segment_of(s: Json) -> Option<(Seq<char>, Seq<char>, Seq<char>)> {
    let offsets = get(s, "offsets"@);
    match (text_value(get(s, "text"@)), number_value(get_in(offsets, "from"@)), number_value(
        get_in(offsets, "to"@),
    )) {
        (Some(t), Some(f), Some(e)) => if trimmed(t).len() > 0 {
            Some((trimmed(t), f, e))
        } else {
            None
        },
        _ => None,
    }
}

/// The lines of `all`, in order, items that give none skipped.
pub open spec fn segments_of(all: Seq<Json>) -> Seq<(Seq<char>, Seq<char>, Seq<char>)>
    decreases all.len(),
{
    if all.len() == 0 {
        seq![]
    } else {
        match segment_of(all.last()) {
            Some(x) => segments_of(all.drop_last()).push(x),
            None => segments_of(all.drop_last()),
        }
    }
}

pub open spec fn raw_view(r: RawSegment) -> (Seq<char>, Seq<char>, Seq<char>) {
    (r.text@, r.from@, r.to@)
}

fn segment_in(s: &Json) -> (r: Option<RawSegment>)
    ensures
        match r {
            Some(x) => segment_of(*s) == Some(raw_view(x)),
            None => segment_of(*s) is None,
        },
{
    let offsets = get_of(s, "offsets");
    let text = text_of(get_of(s, "text"));
    let from = number_of(get_in_of(offsets, "from"));
    let to = number_of(get_in_of(offsets, "to"));
    match (text, from, to) {
        (Some(t), Some(f), Some(e)) => {
            let kept = trim(t.as_str());
            let kv = chars_of(kept.as_str());
            if kv.len() > 0 {
                Some(RawSegment { text: kept, from: f, to: e })
            } else {
                None
            }
        },
        _ => None,
    }
}

/// Reads whisper's JSON output: every item of `transcription` with text that
/// is not blank and both offsets, in order. `None` when it is not JSON.
pub fn whisper_items(json_text: &str) -> (r: Option<Vec<RawSegment>>)
    ensures
        r is None <==> json_text_of(json_text@) is None,
        r matches Some(v) ==> {
            let want = segments_of(items(get(json_text_of(json_text@)->0, "transcription"@)));
            &&& v@.len() == want.len()
            &&& forall|k: int| 0 <= k < want.len() ==> raw_view(#[trigger] v@[k]) == want[k]
        },
{
    let data = match parse_json_text(json_text) {
        Some(d) => d,
        None => return None,
    };
    let ghost all = items(get(data, "transcription"@));
    let mut out: Vec<RawSegment> = Vec::new();
    match items_of(get_of(&data, "transcription")) {
        None => {
            assert(all == Seq::<Json>::empty());
        },
        Some(list) => {
            let mut i: usize = 0;
            while i < list.len()
                invariant
                    i <= list@.len(),
                    all == list@,
                    out@.len() == segments_of(all.take(i as int)).len(),
                    forall|k: int|
                        0 <= k < out@.len() ==> raw_view(#[trigger] out@[k]) == segments_of(all.take(i as int))[k],
                decreases list@.len() - i,
            {
                proof {
                    let t = all.take(i + 1);
                    assert(t.drop_last() == all.take(i as int));
                    assert(t.last() == all[i as int]);
                }
                match segment_in(&list[i]) {
                    Some(x) => out.push(x),
                    None => {},
                }
                i = i + 1;
            }
            assert(all.take(all.len() as int) == all);
        },
    }
    Some(out)
}

// ---- model replies ----

/// `c` first stands at `i` in `s`.
pub open spec fn first_at(s: Seq<char>, c: char, i: int) -> bool {
    0 <= i < s.len() && s[i] == c && forall|j: int| 0 <= j < i ==> s[j] != c
}

/// `c` last stands at `i` in `s`.
pub open spec fn last_at(s: Seq<char>, c: char, i: int) -> bool {
    0 <= i < s.len() && s[i] == c && forall|j: int| i < j < s.len() ==> s[j] != c
}

pub open spec fn no_json_text() -> Seq<char> {
    "no json in response"@
}

pub open spec fn malformed_text() -> Seq<char> {
    "llm returned malformed json"@
}

/// What a model's reply holds. Cloud models wrap JSON in prose or code
/// fences even when told not to: the trimmed reply when it parses, else
/// the span from its first '{' to its last '}'.
pub open spec fn spec_lenient(text: Seq<char>) -> Result<Json, Seq<char>> {
    match json_text_of(trimmed(text)) {
        Some(v) => Ok(v),
        None => if !(exists|i: int| first_at(text, '{', i)) || !(exists|i: int| last_at(text, '}', i)) {
            Err(no_json_text())
        } else {
            let s = choose|i: int| first_at(text, '{', i);
            let e = choose|i: int| last_at(text, '}', i);
            if e < s {
                Err(malformed_text())
            } else {
                match json_text_of(text.subrange(s, e + 1)) {
                    Some(v) => Ok(v),
                    None => Err(malformed_text()),
                }
            }
        },
    }
}

fn first_of(v: &Vec<char>, c: char) -> (r: Option<usize>)
    ensures
        r is None ==> forall|i: int| !first_at(v@, c, i),
        r matches Some(i) ==> first_at(v@, c, i as int) && forall|k: int| first_at(v@, c, k) ==> k == i,
{
    let mut i: usize = 0;
    while i < v.len()
        invariant
            i <= v@.len(),
            forall|j: int| 0 <= j < i ==> v@[j] != c,
        decreases v@.len() - i,
    {
        if v[i] == c {
            assert(first_at(v@, c, i as int));
            assert forall|k: int| first_at(v@, c, k) implies k == i by {
                if k > i {
                    assert(v@[i as int] == c);
                }
            }
            return Some(i);
        }
        i = i + 1;
    }
    None
}

fn last_of(v: &Vec<char>, c: char) -> (r: Option<usize>)
    ensures
        r is None ==> forall|i: int| !last_at(v@, c, i),
        r matches Some(i) ==> last_at(v@, c, i as int) && forall|k: int| last_at(v@, c, k) ==> k == i,
{
    let mut i: usize = v.len();
    while i > 0
        invariant
            i <= v@.len(),
            forall|j: int| i <= j < v@.len() ==> v@[j] != c,
        decreases i,
    {
        if v[i - 1] == c {
            let k0 = i - 1;
            assert(last_at(v@, c, k0 as int));
            assert forall|k: int| last_at(v@, c, k) implies k == k0 by {
                if k < k0 {
                    assert(v@[k0 as int] == c);
                }
            }
            return Some(k0);
        }
        i = i - 1;
    }
    None
}

/// Reads a model's reply as JSON; the error says why it could not.
pub fn parse_lenient(text: &str) -> (r: Result<Json, String>)
    ensures
        match r {
            Ok(v) => spec_lenient(text@) == Ok::<Json, Seq<char>>(v),
            Err(e) => spec_lenient(text@) == Err::<Json, Seq<char>>(e@),
        },
{
    let t = trim(text);
    match parse_json_text(t.as_str()) {
        Some(v) => return Ok(v),
        None => {},
    }
    let chars = chars_of(text);
    let s = first_of(&chars, '{');
    let e = last_of(&chars, '}');
    match (s, e) {
        (Some(s), Some(e)) => {
            if e < s {
                return Err(owned("llm returned malformed json"));
            }
            let span = string_of(&chars, s, e + 1);
            match parse_json_text(span.as_str()) {
                Some(v) => Ok(v),
                None => Err(owned("llm returned malformed json")),
            }
        },
        _ => Err(owned("no json in response")),
    }
}

/// The beats a reply lists: every item of `beats` with both `t` and `text`
/// as strings, in order.
pub open spec fn beat_pairs(all: Seq<Json>) -> Seq<(Seq<char>, Seq<char>)>
    decreases all.len(),
{
    if all.len() == 0 {
        seq![]
    } else {
        let b = all.last();
        match (text_value(get(b, "t"@)), text_value(get(b, "text"@))) {
            (Some(t), Some(x)) => beat_pairs(all.drop_last()).push((t, x)),
            _ => beat_pairs(all.drop_last()),
        }
    }
}

/// The (timestamp, text) pairs of a reply's beats.
pub fn beats_of(reply: &Json) -> (r: Vec<(String, String)>)
    ensures
        ({
            let want = beat_pairs(items(get(*reply, "beats"@)));
            &&& r@.len() == want.len()
            &&& forall|k: int| 0 <= k < want.len() ==> (#[trigger] r@[k]).0@ == want[k].0 && r@[k].1@ == want[k].1
        }),
{
    let ghost all = items(get(*reply, "beats"@));
    let mut out: Vec<(String, String)> = Vec::new();
    match items_of(get_of(reply, "beats")) {
        None => {
            assert(all == Seq::<Json>::empty());
        },
        Some(list) => {
            let mut i: usize = 0;
            while i < list.len()
                invariant
                    i <= list@.len(),
                    all == list@,
                    out@.len() == beat_pairs(all.take(i as int)).len(),
                    forall|k: int|
                        0 <= k < out@.len() ==> (#[trigger] out@[k]).0@ == beat_pairs(all.take(i as int))[k].0
                            && out@[k].1@ == beat_pairs(all.take(i as int))[k].1,
                decreases list@.len() - i,
            {
                proof {
                    let t = all.take(i + 1);
                    assert(t.drop_last() == all.take(i as int));
                    assert(t.last() == all[i as int]);
                }
                let b = &list[i];
                match (text_of(get_of(b, "t")), text_of(get_of(b, "text"))) {
                    (Some(t), Some(x)) => out.push((t, x)),
                    _ => {},
                }
                i = i + 1;
            }
            assert(all.take(all.len() as int) == all);
        },
    }
    out
}

// ---- the reply envelope ----

/// `v[0]`, when `v` is a non-empty array.
pub open spec fn first_item(v: Option<Json>) -> Option<Json> {
    match v {
        Some(Json::Array(a)) => if a@.len() > 0 {
            Some(a@[0])
        } else {
            None
        },
        _ => None,
    }
}

/// A content block that carries a tool's input: its `type` is the string
/// "tool_use".
pub open spec fn is_tool_use(b: Json) -> bool {
    text_value(get(b, "type"@)) == Some("tool_use"@)
}

/// The first tool-use block, if any.
pub open spec fn first_tool_use(blocks: Seq<Json>) -> Option<Json>
    decreases blocks.len(),
{
    if blocks.len() == 0 {
        None
    } else if is_tool_use(blocks[0]) {
        Some(blocks[0])
    } else {
        first_tool_use(blocks.drop_first())
    }
}

/// The message text of a chat-completions reply: `choices[0].message.content`
/// when it is a string.
pub open spec fn reply_content(resp: Json) -> Option<Seq<char>> {
    text_value(get_in(get_in(first_item(get(resp, "choices"@)), "message"@), "content"@))
}

pub open spec fn not_json_reply_text() -> Seq<char> {
    "the model's reply was not JSON"@
}

pub open spec fn no_content_text() -> Seq<char> {
    "llm response had no content"@
}

/// The first 200 characters of a reply body.
pub open spec fn head_of(body: Seq<char>) -> Seq<char> {
    if body.len() <= 200 {
        body
    } else {
        body.take(200)
    }
}

pub open spec fn unexpected_text(body: Seq<char>) -> Seq<char> {
    "unexpected response: "@ + head_of(body)
}

/// What a cloud model's reply body holds. Anthropic returns the tool's
/// input as JSON (null when the block has none); everyone else returns
/// message text, read leniently.
pub open spec fn spec_remote_reply(body: Seq<char>) -> Result<Json, Seq<char>> {
    match json_text_of(body) {
        None => Err(not_json_reply_text()),
        Some(resp) => match first_tool_use(items(get(resp, "content"@))) {
            Some(b) => Ok(
                match get(b, "input"@) {
                    Some(i) => i,
                    None => Json::Null,
                },
            ),
            None => match reply_content(resp) {
                Some(c) => spec_lenient(c),
                None => Err(unexpected_text(body)),
            },
        },
    }
}

/// What the local model server's reply body holds: its message text, read
/// leniently.
pub open spec fn spec_local_reply(body: Seq<char>) -> Result<Json, Seq<char>> {
    match json_text_of(body) {
        None => Err(not_json_reply_text()),
        Some(resp) => match reply_content(resp) {
            Some(c) => spec_lenient(c),
            None => Err(no_content_text()),
        },
    }
}

fn member_index(entries: &Vec<(String, Json)>, key: &str) -> (r: Option<usize>)
    ensures
        r matches Some(i) ==> i < entries@.len() && member(entries@, key@) == Some(entries@[i as int].1),
        r is None ==> member(entries@, key@) is None,
{
    let mut i: usize = 0;
    assert(entries@.skip(0) == entries@);
    while i < entries.len()
        invariant
            i <= entries@.len(),
            member(entries@, key@) == member(entries@.skip(i as int), key@),
        decreases entries@.len() - i,
    {
        let ghost rest = entries@.skip(i as int);
        assert(rest[0] == entries@[i as int]);
        if same_text(entries[i].0.as_str(), key) {
            return Some(i);
        }
        assert(rest.drop_first() == entries@.skip(i + 1));
        i = i + 1;
    }
    None
}

/// `v[key]`, moved out of `v`.
fn take_member(v: Json, key: &str) -> (r: Option<Json>)
    ensures
        r == get(v, key@),
{
    match v {
        Json::Object(mut entries) => match member_index(&entries, key) {
            Some(i) => {
                let (_, x) = entries.remove(i);
                Some(x)
            },
            None => None,
        },
        _ => None,
    }
}

fn first_item_of<'a>(v: Option<&'a Json>) -> (r: Option<&'a Json>)
    ensures
        deref_json(r) == first_item(deref_json(v)),
{
    match v {
        Some(Json::Array(a)) => if a.len() > 0 {
            Some(&a[0])
        } else {
            None
        },
        _ => None,
    }
}

fn content_of(resp: &Json) -> (r: Option<String>)
    ensures
        opt_text(r) == reply_content(*resp),
{
    text_of(get_in_of(get_in_of(first_item_of(get_of(resp, "choices")), "message"), "content"))
}

/// Where the first tool-use block stands among `blocks`.
fn tool_use_index(blocks: &Vec<Json>) -> (r: Option<usize>)
    ensures
        r matches Some(i) ==> i < blocks@.len() && first_tool_use(blocks@) == Some(blocks@[i as int]),
        r is None ==> first_tool_use(blocks@) is None,
{
    let mut i: usize = 0;
    assert(blocks@.skip(0) == blocks@);
    while i < blocks.len()
        invariant
            i <= blocks@.len(),
            first_tool_use(blocks@) == first_tool_use(blocks@.skip(i as int)),
        decreases blocks@.len() - i,
    {
        let ghost rest = blocks@.skip(i as int);
        assert(rest[0] == blocks@[i as int]);
        let kind = text_of(get_of(&blocks[i], "type"));
        let hit = match kind {
            Some(t) => same_text(t.as_str(), "tool_use"),
            None => false,
        };
        if hit {
            return Some(i);
        }
        assert(rest.drop_first() == blocks@.skip(i + 1));
        i = i + 1;
    }
    None
}

/// `unexpected response: ` and the first 200 characters of the body.
fn unexpected(body: &str) -> (s: String)
    ensures
        s@ == unexpected_text(body@),
{
    let chars = chars_of(body);
    let n = if chars.len() <= 200 { chars.len() } else { 200 };
    let mut s = owned("unexpected response: ");
    let head = string_of(&chars, 0, n);
    push_str(&mut s, head.as_str());
    assert(chars@.subrange(0, n as int) == head_of(body@));
    s
}

/// Reads what a cloud model answered from the raw reply body.
pub fn remote_reply(body: &str) -> (r: Result<Json, String>)
    ensures
        match r {
            Ok(v) => spec_remote_reply(body@) == Ok::<Json, Seq<char>>(v),
            Err(e) => spec_remote_reply(body@) == Err::<Json, Seq<char>>(e@),
        },
{
    let resp = match parse_json_text(body) {
        Some(v) => v,
        None => return Err(owned("the model's reply was not JSON")),
    };
    let found = match items_of(get_of(&resp, "content")) {
        Some(blocks) => tool_use_index(blocks),
        None => None,
    };
    match found {
        Some(i) => {
            let blocks = take_member(resp, "content");
            match blocks {
                Some(Json::Array(mut blocks)) => {
                    let block = blocks.remove(i);
                    match take_member(block, "input") {
                        Some(input) => Ok(input),
                        None => Ok(Json::Null),
                    }
                },
                _ => Err(owned("the model's reply was not JSON")),
            }
        },
        None => match content_of(&resp) {
            Some(text) => parse_lenient(text.as_str()),
            None => Err(unexpected(body)),
        },
    }
}

/// Reads what the local model server answered from the raw reply body.
pub fn local_reply(body: &str) -> (r: Result<Json, String>)
    ensures
        match r {
            Ok(v) => spec_local_reply(body@) == Ok::<Json, Seq<char>>(v),
            Err(e) => spec_local_reply(body@) == Err::<Json, Seq<char>>(e@),
        },
{
    let resp = match parse_json_text(body) {
        Some(v) => v,
        None => return Err(owned("the model's reply was not JSON")),
    };
    match content_of(&resp) {
        Some(text) => parse_lenient(text.as_str()),
        None => Err(owned("llm response had no content")),
    }
}

} // verus!
