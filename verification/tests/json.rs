use chaptr::json::{beats_of, parse_lenient, probe_output, whisper_items, Json};

const PROBE: &str = r#"{
  "streams": [
    {"index": 0, "codec_type": "video", "codec_name": "h264"},
    {"index": 1, "codec_type": "audio", "codec_name": "aac", "channels": 2, "tags": {"title": "Mic"}},
    {"index": 2, "codec_type": "audio", "codec_name": "opus", "channels": 1, "tags": {"name": "Discord"}},
    {"index": -3, "codec_type": "audio"}
  ],
  "format": {"duration": "3601.250000"}
}"#;

#[test]
fn ffprobe_reports() {
    let p = probe_output(PROBE.as_bytes()).unwrap();
    assert_eq!(p.duration.as_deref(), Some("3601.250000"));
    assert_eq!(p.audio.len(), 3);
    assert_eq!(p.audio[0].index, Some(1));
    assert_eq!(p.audio[0].title.as_deref(), Some("Mic"));
    assert_eq!(p.audio[0].name, None);
    assert_eq!(p.audio[0].codec.as_deref(), Some("aac"));
    assert_eq!(p.audio[0].channels, Some(2));
    assert_eq!(p.audio[1].name.as_deref(), Some("Discord"));
    assert_eq!(p.audio[2].index, None);
    assert_eq!(p.audio[2].codec, None);
    assert!(probe_output(b"not json").is_none());
    let empty = probe_output(b"[1, 2]").unwrap();
    assert!(empty.audio.is_empty() && empty.duration.is_none());
}

#[test]
fn whisper_transcripts() {
    let text = r#"{"transcription": [
        {"text": "  gg ", "offsets": {"from": 1500, "to": 2300}},
        {"text": "   ", "offsets": {"from": 3000, "to": 3100}},
        {"text": "no offsets"},
        {"text": 7, "offsets": {"from": 1, "to": 2}},
        {"text": "push mid", "offsets": {"from": 4000, "to": "x"}},
        {"text": "last", "offsets": {"from": 5000.5, "to": 6000}}
    ]}"#;
    let items = whisper_items(text).unwrap();
    assert_eq!(items.len(), 2);
    assert_eq!(items[0].text, "gg");
    assert_eq!(items[0].from, "1500");
    assert_eq!(items[0].to, "2300");
    assert_eq!(items[1].text, "last");
    assert_eq!(items[1].from, "5000.5");
    assert!(whisper_items("{").is_none());
    assert!(whisper_items("{}").unwrap().is_empty());
}

fn beats(j: &Json) -> Vec<(String, String)> {
    beats_of(j)
}

#[test]
fn lenient_replies() {
    let v = parse_lenient("  {\"beats\": [{\"t\": \"01:15\", \"text\": \"they died\"}]} ").unwrap();
    assert_eq!(beats(&v), vec![("01:15".to_string(), "they died".to_string())]);
    let w = parse_lenient("Sure! ```json\n{\"beats\": [{\"t\": \"00:05\", \"text\": \"x\"}, {\"t\": 5, \"text\": \"y\"}]}\n```").unwrap();
    assert_eq!(beats(&w), vec![("00:05".to_string(), "x".to_string())]);
    assert_eq!(parse_lenient("no braces here").unwrap_err(), "no json in response");
    assert_eq!(parse_lenient("only { open").unwrap_err(), "no json in response");
    assert_eq!(parse_lenient("} oops {").unwrap_err(), "llm returned malformed json");
    assert_eq!(parse_lenient("{ not json }").unwrap_err(), "llm returned malformed json");
    assert!(beats(&parse_lenient("[]").unwrap()).is_empty());
}
