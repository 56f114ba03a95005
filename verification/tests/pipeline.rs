use chaptr::asr::{
    is_noise, json_output, kept_text, output_stem, speech_words, thread_count, whisper_args,
    words_in_line,
};
use chaptr::audio::{asr_args, ffmpeg_args, mix_args, preview_args};
use chaptr::model::{Recording, Track};
use chaptr::transcribe::{passes, plan, sample_name, same_wording, speaker_against, Plan, PlanError};
use chaptr::tracks::Role;

fn strings(v: &[&str]) -> Vec<String> {
    v.iter().map(|s| s.to_string()).collect()
}

fn rec(tracks: usize) -> Recording {
    Recording {
        id: "r1".to_string(),
        path: "/footage/a.mkv".to_string(),
        name: "a.mkv".to_string(),
        duration_order: 0,
        tracks: (0..tracks)
            .map(|i| Track { index: i as u32, name: format!("Track {i}"), codec: "aac".to_string(), channels: 2 })
            .collect(),
    }
}

#[test]
fn noise_lines() {
    assert!(is_noise(" [BLANK_AUDIO] "));
    assert!(is_noise("(Music)"));
    assert!(is_noise("..."));
    assert!(is_noise(""));
    assert!(!is_noise("gg"));
    assert!(!is_noise("[music] playing"));
}

#[test]
fn hallucinated_repeats_count_for_nothing() {
    assert_eq!(words_in_line("I I I I I"), 0);
    assert_eq!(words_in_line("no No no NO no"), 0);
    assert_eq!(words_in_line("go left go left go"), 0);
    assert_eq!(words_in_line("I I I I"), 4);
    assert_eq!(words_in_line("we should push mid now"), 5);
    assert_eq!(words_in_line("   "), 0);
}

#[test]
fn speech_words_skip_noise() {
    let lines = strings(&["[music]", "we should push mid now", "I I I I I", "nice one"]);
    assert_eq!(speech_words(&lines), 7);
    assert_eq!(speech_words(&vec![]), 0);
}

#[test]
fn whisper_output_paths() {
    assert_eq!(output_stem("/s/r1.t0.wav"), "/s/r1.t0");
    assert_eq!(output_stem("/s/x.wav.wav"), "/s/x");
    assert_eq!(output_stem("/s/x.mp3"), "/s/x.mp3");
    assert_eq!(json_output("/s/r1.t0.wav"), "/s/r1.t0.json");
}

#[test]
fn segments_keep_trimmed_text() {
    assert_eq!(kept_text("  hello there "), Some("hello there".to_string()));
    assert_eq!(kept_text(" \n "), None);
}

#[test]
fn threads() {
    assert_eq!(thread_count(Some(4)), 4);
    assert_eq!(thread_count(Some(64)), 16);
    assert_eq!(thread_count(None), 8);
}

#[test]
fn whisper_arguments() {
    let args = whisper_args("/m/model.bin", "/s/r1.t0.wav", "en", 8, "/m/vad.bin", "0.5", "  Haze, Vindicta ");
    assert_eq!(
        args,
        strings(&[
            "-m", "/m/model.bin", "-f", "/s/r1.t0.wav", "-l", "en", "-t", "8", "--vad", "-vm",
            "/m/vad.bin", "-vt", "0.5", "-sns", "-np", "-pp", "-oj", "-of", "/s/r1.t0", "--prompt",
            "Haze, Vindicta",
        ])
    );
    let plain = whisper_args("m", "w.wav", "de", 2, "v", "0.4", " ");
    assert_eq!(plain.len(), 19);
    assert_eq!(plain[18], "w");
}

#[test]
fn one_track_is_taken_as_is() {
    assert_eq!(mix_args(&rec(1)), strings(&["-map", "0:a:0", "-ac", "1"]));
    assert_eq!(mix_args(&rec(0)), strings(&["-map", "0:a:0", "-ac", "1"]));
}

#[test]
fn several_tracks_are_mixed() {
    assert_eq!(
        mix_args(&rec(3)),
        strings(&[
            "-filter_complex",
            "[0:a:0][0:a:1][0:a:2]amix=inputs=3:duration=longest:normalize=0,aresample=async=1[a]",
            "-map",
            "[a]",
            "-ac",
            "1",
        ])
    );
}

#[test]
fn extraction_arguments() {
    assert_eq!(
        asr_args(&rec(1), "/s/r1.wav"),
        strings(&["-i", "/footage/a.mkv", "-map", "0:a:0", "-ac", "1", "-vn", "-ar", "16000", "-c:a", "pcm_s16le", "/s/r1.wav"])
    );
    assert_eq!(
        preview_args(&rec(1), "/p/r1.opus"),
        strings(&[
            "-i", "/footage/a.mkv", "-map", "0:a:0", "-ac", "1", "-vn", "-c:a", "libopus", "-b:a", "24k",
            "-application", "voip", "/p/r1.opus",
        ])
    );
    assert_eq!(
        ffmpeg_args(strings(&["-i", "x"])),
        strings(&["-hide_banner", "-nostdin", "-loglevel", "error", "-progress", "pipe:1", "-y", "-i", "x"])
    );
}

#[test]
fn plans() {
    assert_eq!(plan(&[Role::Mic, Role::Voice]).unwrap(), Plan::Split { mic: 0, voice: 1 });
    assert_eq!(plan(&[Role::Game, Role::Mixed, Role::Mic]).unwrap(), Plan::Derived { mixed: 1, reference: 2, speaker: "me" });
    assert_eq!(plan(&[Role::Voice, Role::Mixed]).unwrap(), Plan::Derived { mixed: 1, reference: 0, speaker: "others" });
    assert_eq!(plan(&[Role::Mixed, Role::Mic, Role::Voice]).unwrap(), Plan::Split { mic: 1, voice: 2 });
    assert_eq!(plan(&[Role::Game, Role::Mixed]).unwrap(), Plan::Single { track: 1, speaker: "all" });
    assert_eq!(plan(&[Role::Game, Role::Mic]).unwrap(), Plan::Single { track: 1, speaker: "me" });
    assert_eq!(plan(&[Role::Voice]).unwrap(), Plan::Single { track: 0, speaker: "others" });
    assert_eq!(plan(&[Role::Game, Role::Unknown, Role::Unknown]).unwrap(), Plan::Single { track: 1, speaker: "all" });
    assert!(matches!(plan(&[Role::Game, Role::Ignore]), Err(PlanError::NoTrack)));
    assert_eq!(PlanError::NoTrack.message(), "no transcribable audio track; check the track roles");
}

#[test]
fn plan_passes() {
    assert_eq!(passes(&Plan::Split { mic: 0, voice: 1 }), vec![(0, "me"), (1, "others")]);
    assert_eq!(passes(&Plan::Derived { mixed: 2, reference: 0, speaker: "me" }), vec![(2, "all"), (0, "me")]);
    assert_eq!(passes(&Plan::Derived { mixed: 1, reference: 0, speaker: "others" }), vec![(1, "all"), (0, "others")]);
    assert_eq!(passes(&Plan::Single { track: 3, speaker: "others" }), vec![(3, "others")]);
    assert_eq!(sample_name("abc", 2), "abc.t2");
}

#[test]
fn mixed_lines_are_matched_against_the_mic() {
    assert!(same_wording("Push mid now!", "push mid now"));
    assert!(!same_wording("push mid now", "go top lane"));
    assert!(!same_wording("...", "push"));
    let nearby = strings(&["go top lane", "we push mid now"]);
    assert_eq!(speaker_against("push mid now", &nearby, "me"), "me");
    assert_eq!(speaker_against("who took my buff", &nearby, "me"), "others");
    assert_eq!(speaker_against("anything", &vec![], "me"), "others");
}

#[test]
fn mixed_lines_heard_on_voice_chat_are_the_others() {
    let nearby = strings(&["go top lane", "we push mid now"]);
    assert_eq!(speaker_against("push mid now", &nearby, "others"), "others");
    assert_eq!(speaker_against("who took my buff", &nearby, "others"), "me");
    assert_eq!(speaker_against("anything", &vec![], "others"), "me");
}

#[test]
fn sample_arguments() {
    assert_eq!(
        chaptr::audio::sample_args(&rec(2), 1, "30.000", "60.000", "/s/probe1.wav"),
        strings(&[
            "-ss", "30.000", "-t", "60.000", "-i", "/footage/a.mkv", "-map", "0:a:1", "-vn", "-ac", "1", "-ar",
            "16000", "-c:a", "pcm_s16le", "/s/probe1.wav",
        ])
    );
}
