use chaptr::bundle::{
    check_sidecars, check_version, is_transcript_file, list_key, project_file, saved_name,
    temporary_file, EXTENSION, VERSION,
};
use chaptr::catalogue::{catalogue_entry, entries, find, Kind};
use chaptr::chaptrs::{
    clock, duplicate_wording, health_url, llama_args, local_url, prompt, transcript_line, Remote,
};
use chaptr::download::{finished, progress, range_header, resume, Resume};
use chaptr::jobs::{
    chaptrs_for, chaptrs_gate, chaptrs_message, failure_message, todo, transcribe_gate,
    transcribed_message, Cancel,
};
use chaptr::prefs::{available, Engine, Prefs, Provider};
use chaptr::resolve::{next_request, request_file, request_line, scripts_dir};
use chaptr::sidecar::{exe, Sidecars};
use chaptr::workspace::{pick, Workspace};

fn strings(v: &[&str]) -> Vec<String> {
    v.iter().map(|s| s.to_string()).collect()
}

#[test]
fn resolve_request_file_and_scripts() {
    assert_eq!(request_file("/data/chaptr"), "/data/chaptr/goto.txt");
    assert_eq!(
        scripts_dir(Some("/home/me"), false),
        Some("/home/me/.local/share/DaVinciResolve/Fusion/Scripts/Utility".to_string())
    );
    assert_eq!(
        scripts_dir(Some("C:/Users/me/AppData/Roaming"), true),
        Some("C:/Users/me/AppData/Roaming/Blackmagic Design/DaVinci Resolve/Support/Fusion/Scripts/Utility".to_string())
    );
    assert_eq!(scripts_dir(None, false), None);
}

#[test]
fn resolve_requests_count_up() {
    assert_eq!(next_request(None), Some(1));
    assert_eq!(next_request(Some("41\tclip.mkv\t12.000")), Some(42));
    assert_eq!(next_request(Some("garbage")), Some(1));
    assert_eq!(next_request(Some("")), Some(1));
    assert_eq!(next_request(Some("18446744073709551615\tx")), None);
    assert_eq!(request_line(3, "/footage/clip.mkv", "12.500"), "3\tclip.mkv\t12.500");
    assert_eq!(request_line(4, "/", "0.000"), "4\t/\t0.000");
    let first = request_line(41, "/f/clip.mkv", "1.000");
    let next = next_request(Some(&first)).unwrap();
    assert_eq!(next, 42);
    assert_ne!(request_line(next, "/f/clip.mkv", "1.000"), first);
}

#[test]
fn downloads_resume() {
    assert_eq!(range_header(0), None);
    assert_eq!(range_header(1024), Some("bytes=1024-".to_string()));
    assert_eq!(resume(100, 206, Some("900")), Some(Resume { total: 1000, received: 100, append: true }));
    assert_eq!(resume(100, 200, Some("1000")), Some(Resume { total: 1000, received: 0, append: false }));
    assert_eq!(resume(0, 200, None), Some(Resume { total: 0, received: 0, append: false }));
    assert_eq!(resume(5, 206, Some("nope")), Some(Resume { total: 5, received: 5, append: true }));
    assert_eq!(resume(u64::MAX, 206, Some("1")), None);
}

#[test]
fn downloads_finish() {
    assert_eq!(finished(1000, 1000), Ok(1000));
    assert_eq!(finished(10, 0), Ok(10));
    assert_eq!(
        finished(10, 1000),
        Err("connection closed after 10 of 1000 bytes; press download again to resume".to_string())
    );
    let p = progress("vad", "v.bin", 1, 2, false, None);
    assert_eq!((p.id.as_str(), p.file.as_str(), p.received, p.total, p.done), ("vad", "v.bin", 1, 2, false));
    assert!(p.error.is_none());
}

#[test]
fn cancel_flag() {
    let c = Cancel::default();
    assert!(!c.hit());
    c.request();
    assert!(c.hit());
    c.reset();
    assert!(!c.hit());
}

#[test]
fn job_decisions() {
    assert_eq!(todo(&vec![true, false, false, true], false), vec![1, 2]);
    assert_eq!(todo(&vec![true, false, false, true], true), vec![0, 3]);
    assert_eq!(transcribe_gate(true), Ok(()));
    assert_eq!(
        transcribe_gate(false),
        Err("no track roles yet \u{2014} open Tracks and detect them first".to_string())
    );
    assert_eq!(chaptrs_gate(&vec![0]), Ok(()));
    assert_eq!(chaptrs_gate(&vec![]), Err("nothing transcribed yet \u{2014} run Transcribe first".to_string()));
    assert_eq!(transcribed_message(3), "transcribed 3 recordings");
    assert_eq!(chaptrs_message(12), "12 chaptrs");
    assert_eq!(failure_message("a.mkv", "whisper failed"), "a.mkv: whisper failed");
    assert_eq!(chaptrs_for(&strings(&["r1", "r2", "r1"]), "r1"), 2);
    assert_eq!(chaptrs_for(&strings(&["r1"]), "r3"), 0);
}

#[test]
fn bundle_files() {
    assert_eq!(EXTENSION, "chaptr");
    assert_eq!(check_version(VERSION), Ok(()));
    assert_eq!(check_version(0), Ok(()));
    assert_eq!(check_version(2), Err("this project was made by a newer version of chaptr".to_string()));
    assert_eq!(list_key(true, true), Some("chaptrs"));
    assert_eq!(list_key(false, true), Some("beats"));
    assert_eq!(list_key(false, false), None);
    assert_eq!(project_file(Some("/x/night".to_string()), None), Ok("/x/night.chaptr".to_string()));
    assert_eq!(project_file(Some("/x/night.bak".to_string()), None), Ok("/x/night.bak".to_string()));
    assert_eq!(project_file(None, Some("/x/saved.chaptr".to_string())), Ok("/x/saved.chaptr".to_string()));
    assert_eq!(
        project_file(Some("/x/new".to_string()), Some("/x/old.chaptr".to_string())),
        Ok("/x/new.chaptr".to_string())
    );
    assert_eq!(project_file(None, None), Err("no file chosen yet".to_string()));
    assert_eq!(saved_name("/x/night.chaptr", "old"), "night");
    assert_eq!(saved_name("/x/a.b.chaptr", "old"), "a.b");
    assert_eq!(saved_name("/", "old"), "old");
    assert_eq!(temporary_file("/x/night.chaptr"), "/x/night.chaptr.part");
    assert!(is_transcript_file("/w/transcripts/r1.json"));
    assert!(!is_transcript_file("/w/transcripts/r1.JSON"));
    assert!(!is_transcript_file("/w/transcripts/notes"));
}

#[test]
fn readiness_lists_what_is_missing() {
    let mut p = Prefs::default();
    assert_eq!(
        check_sidecars(strings(&["ffmpeg"]), false, true, &p, false),
        strings(&["ffmpeg", "speech model", "language model"])
    );
    assert!(check_sidecars(vec![], true, true, &p, true).is_empty());
    p.engine = Engine::Cloud;
    assert_eq!(check_sidecars(vec![], true, false, &p, false), strings(&["voice-activity model", "API key"]));
    p.anthropic_key = "sk".to_string();
    assert!(check_sidecars(vec![], true, true, &p, false).is_empty());
}

#[test]
fn catalogue_lookup() {
    let all = entries();
    assert_eq!(all[0].id, "vad");
    assert_eq!(all[0].kind, Kind::Support);
    assert!(all[0].required);
    let e = find("qwen14b").unwrap();
    assert_eq!(e.file, "Qwen3-14B-Q4_K_M.gguf");
    assert_eq!(e.kind, Kind::Language);
    assert!(find("nope").is_none());
    let c = catalogue_entry(e, 0);
    assert!(!c.installed);
    let c = catalogue_entry(e, 10);
    assert!(c.installed && c.on_disk == 10);
}

#[test]
fn preferences() {
    let p = Prefs::default();
    assert_eq!(p.whisper_model, "ggml-large-v3-turbo-q5_0.bin");
    assert_eq!(p.language, "en");
    assert_eq!(f64::from_bits(p.vad_threshold_bits), 0.5);
    assert_eq!(p.engine, Engine::Local);
    assert_eq!(p.local_model, "Qwen3-14B-Q4_K_M.gguf");
    assert_eq!(p.cloud_provider, Provider::Anthropic);
    assert_eq!(p.parallel, 4);
    let mut q = Prefs::default();
    q.openai_key = "ok".to_string();
    q.cloud_provider = Provider::Compatible;
    assert_eq!(q.key(), "ok");
    q.cloud_provider = Provider::Google;
    assert_eq!(q.key(), "");
    let m = available(&strings(&[
        "b.gguf", "ggml-small.en.bin", "ggml-silero-v5.1.2.bin", "a.gguf", "readme.txt", "ggml-base.bin",
    ]));
    assert_eq!(m.speech, strings(&["ggml-base.bin", "ggml-small.en.bin"]));
    assert_eq!(m.language, strings(&["a.gguf", "b.gguf"]));
}

#[test]
fn remote_models() {
    let mut p = Prefs::default();
    assert!(Remote::from(&p).is_none());
    p.engine = Engine::Cloud;
    assert!(Remote::from(&p).is_none());
    p.anthropic_key = "k".to_string();
    p.cloud_model = "some-model".to_string();
    let r = Remote::from(&p).unwrap();
    assert_eq!(r.key, "k");
    assert_eq!(r.model, "some-model");
    assert_eq!(r.endpoint(), "https://api.anthropic.com/v1/messages");
    assert!(r.native_messages());
    assert_eq!(r.authorization(), "Bearer k");
    let custom = Remote { base_url: "https://openrouter.ai/api/v1//".to_string(), ..r.clone() };
    assert_eq!(custom.endpoint(), "https://openrouter.ai/api/v1/chat/completions");
    assert!(!custom.native_messages());
    let google = Remote { provider: Provider::Google, ..r };
    assert_eq!(google.endpoint(), "https://generativelanguage.googleapis.com/v1beta/openai/chat/completions");
}

#[test]
fn local_server() {
    assert_eq!(local_url(8899), "http://127.0.0.1:8899/v1/chat/completions");
    assert_eq!(health_url(8899), "http://127.0.0.1:8899/health");
    assert_eq!(
        llama_args("/m/q.gguf", 16384, 8899),
        strings(&["-m", "/m/q.gguf", "-ngl", "99", "-c", "16384", "--port", "8899", "--host", "127.0.0.1"])
    );
}

#[test]
fn prompts_and_lines() {
    assert_eq!(clock(0), "00:00");
    assert_eq!(clock(75), "01:15");
    assert_eq!(clock(6000), "100:00");
    assert_eq!(transcript_line(75, "gg"), "[01:15] gg");
    let p = prompt("a match of Deadlock", "  Haze ", 2, 6, "[00:05] go", "00:00", "10:00");
    assert!(p.starts_with("Audio from a recording, 00:00 to 10:00. This recording is a match of Deadlock. Names and terms you may hear: Haze.\n"));
    assert!(p.contains("\n\n[00:05] go\n\n"));
    assert!(p.contains("Give 3 to 6 beats, spread across 00:00-10:00."));
    let q = prompt("x", " ", 0, 1, "", "a", "b");
    assert!(q.contains("This recording is x.\nYou hear"));
}

#[test]
fn duplicate_beats_by_wording() {
    assert!(duplicate_wording("They pushed the middle lane", "the team pushed middle"));
    assert!(!duplicate_wording("They pushed the middle lane", "Haze wasted her ultimate"));
    assert!(duplicate_wording("a b c", "anything at all here"));
}

#[test]
fn sidecars_and_workspace() {
    assert_eq!(exe("ffmpeg", true), "ffmpeg.exe");
    assert_eq!(exe("ffmpeg", false), "ffmpeg");
    let s = Sidecars::discover(Some("/app/bin/ffmpeg".to_string()), None, None, None, false);
    assert_eq!(s.ffmpeg, "/app/bin/ffmpeg");
    assert_eq!(s.ffprobe, "ffprobe");
    assert_eq!(s.whisper, "whisper-cli");
    assert_eq!(s.llama, "llama-server");
    assert_eq!(s.missing([true, false, true, false]), strings(&["ffprobe", "llama-server"]));
    assert_eq!(s.require("ffprobe", true), Ok(()));
    assert_eq!(
        s.require("ffprobe", false),
        Err("ffprobe not found; install it or drop it in the app's bin/ folder".to_string())
    );
    let w = Workspace::new("/d/projects/abc".to_string());
    assert_eq!(w.library(), "/d/projects/abc/library.json");
    assert_eq!(w.settings(), "/d/projects/abc/settings.json");
    assert_eq!(w.transcript("r1"), "/d/projects/abc/transcripts/r1.json");
    assert_eq!(w.preview("r1"), "/d/projects/abc/preview/r1.opus");
    assert_eq!(w.scratch("r1.t0"), "/d/projects/abc/scratch/r1.t0.wav");
    assert_eq!(w.file("chaptrs.json"), "/d/projects/abc/chaptrs.json");
    assert_eq!(w.chaptrs(false, true), "/d/projects/abc/beats.json");
    assert_eq!(w.chaptrs(true, true), "/d/projects/abc/chaptrs.json");
    assert_eq!(w.chaptrs(false, false), "/d/projects/abc/chaptrs.json");
    assert_eq!(w.edits(false, true), "/d/projects/abc/beats.edits.json");
    assert_eq!(pick("/r", "new.json", "old.json", false, true), "/r/old.json");
}

#[test]
fn edits_never_share_the_generated_list_path() {
    let w = Workspace::new("/d/p".to_string());
    for (a, b, c, d) in [(false, false, false, false), (false, true, false, true), (true, true, false, true)] {
        assert_ne!(w.chaptrs(a, b), w.edits(c, d));
    }
}

#[test]
fn gpu_memory_report() {
    assert_eq!(chaptr::catalogue::vram_gb("24576\n"), Some(24));
    assert_eq!(chaptr::catalogue::vram_gb(" 8192 \r\n4096\n"), Some(8));
    assert_eq!(chaptr::catalogue::vram_gb("1023"), Some(0));
    assert_eq!(chaptr::catalogue::vram_gb(""), None);
    assert_eq!(chaptr::catalogue::vram_gb("N/A\n"), None);
    assert_eq!(chaptr::catalogue::vram_gb("4294967296\n"), None);
}

#[test]
fn resumed_passes_skip_finished_work() {
    assert!(todo(&vec![true, true, true], false).is_empty());
    assert_eq!(todo(&vec![false, false], false), vec![0, 1]);
}

#[test]
fn one_job_at_a_time() {
    let mut slot = chaptr::jobs::JobSlot::new();
    assert!(!slot.running());
    assert_eq!(slot.start(), Ok(1));
    assert!(slot.running());
    assert_eq!(slot.start(), Err("a job is already running".to_string()));
    assert_eq!(slot.run(), 1);
    slot.finish();
    assert!(!slot.running());
    assert_eq!(slot.start(), Ok(2));
}
