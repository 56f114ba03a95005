use chaptr::bundle::{pack_project, unpack_project};
use chaptr::jobs::{pass_step, PassAction, PassEvent, PassKind, PassState};
use chaptr::json::{local_reply, remote_reply, Json};
use chaptr::scan::{stamp_millis, start_millis, Stamp};

fn fresh(kind: PassKind) -> PassState {
    PassState { kind, next: 0, produced: 0, over: false }
}

fn work(a: &PassAction) -> (usize, usize, Option<String>) {
    match a {
        PassAction::Work { recording, index, report } => (*recording, *index, report.clone()),
        other => panic!("expected work, got {other:?}"),
    }
}

fn finish(a: &PassAction) -> (bool, bool, bool, String, Option<String>) {
    match a {
        PassAction::Finish { cancelled, save, clear_scratch, message, report } => {
            (*cancelled, *save, *clear_scratch, message.clone(), report.clone())
        }
        other => panic!("expected finish, got {other:?}"),
    }
}

#[test]
fn transcription_pass_takes_each_recording_in_order() {
    let todo = vec![1, 3];
    let (s, a) = pass_step(&fresh(PassKind::Transcribe), &todo, PassEvent::Start);
    assert_eq!(work(&a), (1, 1, None));
    let (s, a) = pass_step(&s, &todo, PassEvent::Done { produced: 1 });
    assert_eq!(work(&a), (3, 2, None));
    let (s, a) = pass_step(&s, &todo, PassEvent::Failed { name: "b.mkv".to_string(), error: "whisper failed".to_string() });
    assert_eq!(
        finish(&a),
        (false, true, true, "transcribed 1 recordings".to_string(), Some("b.mkv: whisper failed".to_string()))
    );
    assert!(s.over);
    let (s2, a) = pass_step(&s, &todo, PassEvent::Done { produced: 1 });
    assert!(matches!(a, PassAction::Idle));
    assert_eq!(s2, s);
}

#[test]
fn transcription_pass_with_nothing_to_do() {
    let (s, a) = pass_step(&fresh(PassKind::Transcribe), &vec![], PassEvent::Start);
    assert_eq!(finish(&a), (false, false, false, "every recording is already transcribed".to_string(), None));
    assert!(s.over);
}

#[test]
fn skipped_recordings_are_passed_over() {
    let todo = vec![0, 2];
    let (s, _) = pass_step(&fresh(PassKind::Transcribe), &todo, PassEvent::Start);
    let (s, a) = pass_step(&s, &todo, PassEvent::Skipped);
    assert_eq!(work(&a), (2, 2, None));
    let (s, a) = pass_step(&s, &todo, PassEvent::Done { produced: 1 });
    assert_eq!(finish(&a), (false, true, true, "transcribed 1 recordings".to_string(), None));
    assert_eq!(s.produced, 1);
}

#[test]
fn cancel_keeps_what_was_produced() {
    let todo = vec![4, 5, 6];
    let (s, _) = pass_step(&fresh(PassKind::Chaptrs), &todo, PassEvent::Start);
    let (s, a) = pass_step(&s, &todo, PassEvent::Done { produced: 7 });
    assert_eq!(work(&a), (5, 2, None));
    let (s, a) = pass_step(&s, &todo, PassEvent::Cancelled);
    assert_eq!(finish(&a), (true, true, false, String::new(), None));
    assert!(s.over);
    assert_eq!(s.produced, 7);
    let (_, a) = pass_step(&s, &todo, PassEvent::Cancelled);
    assert!(matches!(a, PassAction::Idle));
}

#[test]
fn cancel_before_anything_saves_nothing() {
    let todo = vec![0];
    let (s, _) = pass_step(&fresh(PassKind::Transcribe), &todo, PassEvent::Start);
    let (_, a) = pass_step(&s, &todo, PassEvent::Cancelled);
    assert_eq!(finish(&a), (true, false, false, String::new(), None));
}

#[test]
fn chaptr_pass_counts_chaptrs() {
    let todo = vec![0, 1];
    let (s, _) = pass_step(&fresh(PassKind::Chaptrs), &todo, PassEvent::Start);
    let (s, _) = pass_step(&s, &todo, PassEvent::Done { produced: 5 });
    let (s, a) = pass_step(&s, &todo, PassEvent::Done { produced: 3 });
    assert_eq!(finish(&a), (false, true, false, "8 chaptrs".to_string(), None));
    // A new start begins again from the first recording.
    let (_, a) = pass_step(&s, &todo, PassEvent::Start);
    assert_eq!(work(&a), (0, 1, None));
}

fn object_keys(v: &Json) -> Vec<String> {
    match v {
        Json::Object(m) => m.iter().map(|(k, _)| k.clone()).collect(),
        other => panic!("expected an object, got {other:?}"),
    }
}

#[test]
fn anthropic_replies_carry_the_tool_input() {
    let body = r#"{"content":[{"type":"text","text":"hi"},{"type":"tool_use","name":"chaptrs","input":{"beats":[]}}]}"#;
    assert_eq!(object_keys(&remote_reply(body).unwrap()), vec!["beats".to_string()]);
    let bare = r#"{"content":[{"type":"tool_use"}]}"#;
    assert!(matches!(remote_reply(bare), Ok(Json::Null)));
}

#[test]
fn chat_replies_are_read_leniently() {
    let body = r#"{"choices":[{"message":{"content":"Here you go: {\"beats\": [], \"n\": 1} done"}}]}"#;
    assert_eq!(object_keys(&remote_reply(body).unwrap()), vec!["beats".to_string(), "n".to_string()]);
    assert_eq!(object_keys(&local_reply(body).unwrap()), vec!["beats".to_string(), "n".to_string()]);
    let prose = r#"{"choices":[{"message":{"content":"no json here"}}]}"#;
    assert_eq!(remote_reply(prose).unwrap_err(), "no json in response");
}

#[test]
fn replies_without_content_are_refused() {
    let body = r#"{"error":"overloaded"}"#;
    assert_eq!(remote_reply(body).unwrap_err(), format!("unexpected response: {body}"));
    assert_eq!(local_reply(body).unwrap_err(), "llm response had no content");
    let long = format!("{{\"pad\":\"{}\"}}", "x".repeat(300));
    let msg = remote_reply(&long).unwrap_err();
    assert_eq!(msg, format!("unexpected response: {}", &long[..200]));
    assert_eq!(remote_reply("<html>busy</html>").unwrap_err(), "the model's reply was not JSON");
    assert_eq!(local_reply("").unwrap_err(), "the model's reply was not JSON");
}

#[test]
fn project_files_are_gzip_and_read_back() {
    let json = br#"{"version":1,"name":"night","sources":[]}"#;
    let packed = pack_project(json).unwrap();
    assert_eq!(&packed[..2], &[0x1f, 0x8b]);
    assert_ne!(packed.as_slice(), json.as_slice());
    assert_eq!(unpack_project(&packed), Some(json.to_vec()));
    assert_eq!(unpack_project(json), None);
    assert_eq!(unpack_project(&packed[..packed.len() - 4]), None);
}

#[test]
fn start_times_on_the_local_clock() {
    let noon = Stamp { year: 2024, month: 3, day: 5, hour: 12, minute: 0, second: 0 };
    let later = Stamp { year: 2024, month: 3, day: 5, hour: 12, minute: 0, second: 7 };
    let a = stamp_millis(&noon).unwrap();
    let b = stamp_millis(&later).unwrap();
    assert_eq!(b - a, 7000);
    assert_eq!(stamp_millis(&Stamp { year: 2024, month: 2, day: 30, hour: 12, minute: 0, second: 0 }), None);
    assert_eq!(stamp_millis(&Stamp { year: 2024, month: 3, day: 5, hour: 24, minute: 0, second: 0 }), None);
    assert_eq!(start_millis("2024-03-05T12:00:00", 42), a);
    assert_eq!(start_millis("2024-02-30T12:00:00", 42), 42);
}
