use chaptr::model::{Recording, Track};
use chaptr::tracks::{
    assign, contains, layouts, listed_layout, role_from_name, signature, Role, Settings, TrackProbe,
};

fn track(index: u32, name: &str) -> Track {
    Track { index, name: name.to_string(), codec: "aac".to_string(), channels: 2 }
}

fn rec(id: &str, duration_order: u64, names: &[&str]) -> Recording {
    Recording {
        id: id.to_string(),
        path: format!("/footage/{id}.mkv"),
        name: format!("{id}.mkv"),
        duration_order,
        tracks: names.iter().enumerate().map(|(i, n)| track(i as u32, n)).collect(),
    }
}

fn probe(index: usize, name: &str, speaks: bool, text: &str) -> TrackProbe {
    TrackProbe::heard(index, name, speaks, &vec![text.to_string()])
}

#[test]
fn roles_from_track_names() {
    assert_eq!(role_from_name("Mic/Aux"), Some(Role::Mic));
    assert_eq!(role_from_name("Discord"), Some(Role::Voice));
    assert_eq!(role_from_name("Desktop Audio"), Some(Role::Game));
    assert_eq!(role_from_name("Everything"), Some(Role::Mixed));
    assert_eq!(role_from_name("Track 2"), None);
    // The first list that matches wins: "voice chat mic" is a mic.
    assert_eq!(role_from_name("VOICE CHAT MIC"), Some(Role::Mic));
}

#[test]
fn role_labels() {
    assert!(Role::Mic.transcribed());
    assert!(Role::Voice.transcribed());
    assert!(Role::Mixed.transcribed());
    assert!(Role::Unknown.transcribed());
    assert!(!Role::Game.transcribed());
    assert!(!Role::Ignore.transcribed());
    assert_eq!(Role::Mic.speaker(), "me");
    assert_eq!(Role::Voice.speaker(), "others");
    assert_eq!(Role::Mixed.speaker(), "all");
}

#[test]
fn containment_counts_long_words() {
    assert!(contains("alpha bravo charlie delta", "alpha bravo charlie"));
    assert!(!contains("alpha", "alpha bravo charlie"));
    // Short words do not count, so there is nothing to contain.
    assert!(!contains("a b c", "a b c"));
    // Exactly 60% is not enough.
    assert!(!contains("alpha bravo charlie", "alpha bravo charlie delta echo"));
    assert!(contains("alpha bravo charlie delta", "alpha bravo charlie delta echo"));
}

#[test]
fn signatures() {
    assert_eq!(signature(&rec("a", 1, &["Track 1", "Track 2"])), "2tracks");
    assert_eq!(signature(&rec("a", 1, &["", "stream 2"])), "2tracks");
    assert_eq!(signature(&rec("a", 1, &[" Mic ", "Discord"])), "mic|discord");
    assert_eq!(signature(&rec("a", 1, &[])), "0tracks");
}

#[test]
fn settings_roles_read_back() {
    let mut s = Settings::new("a match".to_string(), "Haze".to_string());
    assert!(!s.has_roles());
    s.insert_roles("mic|discord".to_string(), vec![Role::Mic, Role::Voice]);
    assert!(s.has_roles());
    assert_eq!(s.roles_of("mic|discord"), Some(&vec![Role::Mic, Role::Voice]));
    assert_eq!(s.roles_of("2tracks"), None);
    s.insert_roles("mic|discord".to_string(), vec![Role::Mixed, Role::Ignore]);
    assert_eq!(s.roles_of("mic|discord"), Some(&vec![Role::Mixed, Role::Ignore]));
    assert_eq!(s.entries().len(), 1);
    assert_eq!(s.subject(), "a match");
    assert_eq!(s.notes(), "Haze");
    let r = rec("x", 1, &["Mic", "Discord"]);
    assert_eq!(s.roles_for(&r), Some(&vec![Role::Mixed, Role::Ignore]));
}

#[test]
fn offered_roles_never_clobber_confirmed_ones() {
    let mut s = Settings::new(String::new(), String::new());
    s.insert_roles("2tracks".to_string(), vec![Role::Mic, Role::Voice]);
    s.offer_roles("2tracks".to_string(), vec![Role::Game, Role::Game]);
    assert_eq!(s.roles_of("2tracks"), Some(&vec![Role::Mic, Role::Voice]));
    s.offer_roles("3tracks".to_string(), vec![Role::Game, Role::Mic, Role::Voice]);
    assert_eq!(s.roles_of("3tracks"), Some(&vec![Role::Game, Role::Mic, Role::Voice]));
}

#[test]
fn names_settle_roles() {
    let mut p = vec![probe(0, "Mic", true, "hello"), probe(1, "Discord", true, "hi there")];
    assign(&mut p);
    assert_eq!(p[0].role, Role::Mic);
    assert_eq!(p[1].role, Role::Voice);
    assert!(p[0].confident && p[1].confident);
}

#[test]
fn silent_tracks_are_game_audio() {
    let mut p = vec![probe(0, "Track 1", false, "")];
    assign(&mut p);
    assert_eq!(p[0].role, Role::Game);
    assert!(p[0].confident);
}

#[test]
fn the_track_that_contains_the_others_is_the_mix() {
    let everything = "welcome everyone tonight gonna push middle lane together quickly";
    let mic = "welcome everyone tonight gonna push";
    let voice = "middle lane together quickly";
    let mut p = vec![
        probe(0, "Track 1", true, everything),
        probe(1, "Track 2", true, mic),
        probe(2, "Track 3", true, voice),
        probe(3, "Track 4", false, ""),
    ];
    assign(&mut p);
    assert_eq!(p[0].role, Role::Mixed);
    assert!(p[0].confident);
    assert_eq!(p[1].role, Role::Unknown);
    assert!(!p[1].confident);
    assert_eq!(p[2].role, Role::Unknown);
    assert_eq!(p[3].role, Role::Game);
}

#[test]
fn a_lone_speech_track_is_the_mix() {
    let mut p = vec![probe(0, "Track 1", true, "people talking here"), probe(1, "Track 2", false, "")];
    assign(&mut p);
    assert_eq!(p[0].role, Role::Mixed);
    assert!(p[0].confident);
    assert_eq!(p[1].role, Role::Game);
}

#[test]
fn heard_probes_keep_a_short_sample() {
    let long = "x".repeat(400);
    let p = TrackProbe::heard(2, "Mic", true, &vec![long.clone(), "tail".to_string()]);
    assert_eq!(p.full, format!("{long} tail"));
    assert_eq!(p.sample.chars().count(), 300);
    assert_eq!(p.role, Role::Unknown);
    assert!(!p.confident);
    let u = TrackProbe::unheard(1, "Discord", Role::Voice, true);
    assert_eq!(u.role, Role::Voice);
    assert!(u.confident);
    assert!(u.sample.is_empty());
}

#[test]
fn layouts_group_recordings() {
    let recs = vec![
        rec("a", 10, &["Mic", "Discord"]),
        rec("b", 30, &["Track 1"]),
        rec("c", 50, &["Mic", "Discord"]),
        rec("d", 50, &["mic", "discord"]),
    ];
    let l = layouts(&recs);
    assert_eq!(l, vec![("1tracks".to_string(), 1, 1), ("mic|discord".to_string(), 2, 3)]);
    assert!(layouts(&vec![]).is_empty());
}

#[test]
fn listed_layouts_carry_saved_roles() {
    let r = rec("a", 10, &["Mic", "Discord", "Game"]);
    let saved = vec![Role::Mic, Role::Voice];
    let l = listed_layout("mic|discord|game".to_string(), &r, 4, Some(&saved));
    assert_eq!(l.track_count, 3);
    assert_eq!(l.recordings, 4);
    assert_eq!(l.example, "a.mkv");
    assert_eq!(l.tracks[0].role, Role::Mic);
    assert_eq!(l.tracks[1].role, Role::Voice);
    assert_eq!(l.tracks[2].role, Role::Unknown);
    assert!(l.tracks.iter().all(|t| t.confident));
    let fresh = listed_layout("x".to_string(), &r, 1, None);
    assert!(fresh.tracks.iter().all(|t| t.role == Role::Unknown && !t.confident));
    assert_eq!(fresh.tracks[2].name, "Game");
}
