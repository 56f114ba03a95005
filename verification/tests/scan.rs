use chaptr::scan::{
    is_video, parse_stamp, parse_wall, start_millis, wall_text, play_order, probe_check, recording_id, sessions, track_name, Stamp,
};

fn stamp(year: i32, month: u32, day: u32, hour: u32, minute: u32, second: u32) -> Stamp {
    Stamp { year, month, day, hour, minute, second }
}

#[test]
fn obs_filename_stamp() {
    assert_eq!(parse_stamp("2024-03-09 21-14-05.mkv"), Some(stamp(2024, 3, 9, 21, 14, 5)));
}

#[test]
fn shadowplay_filename_stamp() {
    assert_eq!(
        parse_stamp("Deadlock 2024.03.09 - 21.14.05.02.DVR.mp4"),
        Some(stamp(2024, 3, 9, 21, 14, 5))
    );
}

#[test]
fn game_bar_filename_stamp() {
    assert_eq!(
        parse_stamp("Deadlock 09.03.2024 21_14_05.mp4"),
        Some(stamp(2024, 3, 9, 21, 14, 5))
    );
}

#[test]
fn stamp_without_seconds() {
    assert_eq!(parse_stamp("2024-03-09_21-14.mp4"), Some(stamp(2024, 3, 9, 21, 14, 0)));
}

#[test]
fn stamp_with_long_gap() {
    assert_eq!(parse_stamp("2024_03_09 _-_ 07.30.mp4"), Some(stamp(2024, 3, 9, 7, 30, 0)));
}

#[test]
fn stamp_needs_a_gap_before_the_clock() {
    assert_eq!(parse_stamp("2024-03-0921-14-05.mp4"), None);
}

#[test]
fn no_stamp_in_name() {
    assert_eq!(parse_stamp("clip.mp4"), None);
    assert_eq!(parse_stamp(""), None);
}

#[test]
fn impossible_dates_are_refused() {
    assert_eq!(parse_stamp("2023-02-29 10-00-00.mp4"), None);
    assert_eq!(parse_stamp("2024-13-01 10-00-00.mp4"), None);
    assert_eq!(parse_stamp("2024-04-31 10-00-00.mp4"), None);
    assert_eq!(parse_stamp("2024-04-30 24-00-00.mp4"), None);
    assert_eq!(parse_stamp("2024-04-30 23-60-00.mp4"), None);
    assert_eq!(parse_stamp("2024-04-30 23-59-60.mp4"), None);
}

#[test]
fn leap_days() {
    assert_eq!(parse_stamp("2024-02-29 10-00-00.mp4"), Some(stamp(2024, 2, 29, 10, 0, 0)));
    assert_eq!(parse_stamp("2000-02-29 10-00-00.mp4"), Some(stamp(2000, 2, 29, 10, 0, 0)));
    assert_eq!(parse_stamp("1900-02-29 10-00-00.mp4"), None);
}

#[test]
fn leftmost_year_first_stamp_wins() {
    assert_eq!(
        parse_stamp("09.03.2024 01-02 2023-01-02 03-04-05"),
        Some(stamp(2023, 1, 2, 3, 4, 5))
    );
    // "1202" is followed by '4', not a separator, so the match starts one
    // character later.
    assert_eq!(parse_stamp("12024-01-02 03-04-05"), Some(stamp(2024, 1, 2, 3, 4, 5)));
}

#[test]
fn leftmost_match_can_be_invalid() {
    // The first year-first stamp is read even when its fields are out of
    // range; a later valid one is not consulted.
    assert_eq!(parse_stamp("2024-13-01 10-00 2024-01-01 10-00"), None);
}

#[test]
fn video_extensions() {
    assert!(is_video("/footage/a.mp4"));
    assert!(is_video("/footage/b.MKV"));
    assert!(is_video("c.Mov"));
    assert!(is_video("dir/d.flv"));
    assert!(!is_video("e.avi"));
    assert!(!is_video(".mp4"));
    assert!(!is_video("/footage/"));
    assert!(!is_video("notes.mp4.txt"));
    assert!(is_video("x.y.mp4"));
}

#[test]
fn play_order_is_stable() {
    assert_eq!(play_order(&vec![30, 10, 20, 10]), vec![1, 3, 2, 0]);
    assert_eq!(play_order(&vec![]), Vec::<usize>::new());
}

#[test]
fn sessions_split_on_gaps() {
    // Two recordings back to back, then a three hour break.
    let starts = vec![0, 60_000, 3 * 3_600_000];
    let ends = vec![50_000, 120_000, 3 * 3_600_000 + 10_000];
    let gap = 45 * 60_000;
    assert_eq!(sessions(&starts, &ends, gap), vec![0, 0, 1]);
    assert_eq!(sessions(&vec![], &vec![], gap), Vec::<usize>::new());
}

#[test]
fn gap_exactly_at_the_limit_stays_in_session() {
    assert_eq!(sessions(&vec![0, 100], &vec![50, 150], 50), vec![0, 0]);
    assert_eq!(sessions(&vec![0, 101], &vec![50, 150], 50), vec![0, 1]);
}

#[test]
fn recording_id_is_twelve_hex_digits_of_name_and_size() {
    let a = recording_id("/footage/a.mkv", 1234);
    assert_eq!(a.len(), 12);
    assert!(a.chars().all(|c| c.is_ascii_hexdigit()));
    let expected = blake3::hash(b"a.mkv:1234").to_hex()[..12].to_string();
    assert_eq!(a, expected);
    assert_eq!(recording_id("/elsewhere/a.mkv", 1234), a);
    assert_ne!(recording_id("/footage/a.mkv", 1235), a);
}

#[test]
fn track_names_fall_back() {
    assert_eq!(track_name(Some("Mic"), Some("x"), 3), "Mic");
    assert_eq!(track_name(None, Some("Discord"), 3), "Discord");
    assert_eq!(track_name(None, None, 3), "track3");
}

#[test]
fn probe_errors() {
    assert_eq!(probe_check("a.mp4", true, 2), Ok(()));
    assert_eq!(probe_check("a.mp4", false, 2), Err("a.mp4 has no usable duration".to_string()));
    assert_eq!(probe_check("a.mp4", true, 0), Err("a.mp4 has no audio".to_string()));
}

#[test]
fn stored_start_times_round_trip() {
    let st = stamp(2024, 3, 9, 7, 5, 0);
    assert_eq!(wall_text(&st), "2024-03-09T07:05:00");
    assert_eq!(parse_wall("2024-03-09T07:05:00"), Some(st));
    assert_eq!(wall_text(&stamp(12, 1, 2, 3, 4, 5)), "0012-01-02T03:04:05");
    assert_eq!(parse_wall("2024-02-30T07:05:00"), None);
    assert_eq!(parse_wall("2024-03-09 07:05:00"), None);
    assert_eq!(parse_wall("2024-3-09T07:05:00"), None);
    assert_eq!(start_millis("garbage", 42), 42);
}
