use chaptr::media::{missing, relink, remap_sources};
use chaptr::model::{Recording, Track};
use chaptr::scan::recording_id;

fn rec(name: &str, path: &str, size: u64) -> Recording {
    Recording {
        id: recording_id(name, size),
        path: path.to_string(),
        name: name.to_string(),
        duration_order: 0,
        tracks: vec![Track { index: 1, name: "Track 1".to_string(), codec: "aac".to_string(), channels: 2 }],
    }
}

#[test]
fn missing_lists_absent_recordings() {
    let recs = vec![rec("a.mkv", "/old/a.mkv", 1), rec("b.mkv", "/old/b.mkv", 2)];
    assert_eq!(missing(&recs, &vec![true, false]), vec!["b.mkv".to_string()]);
    assert!(missing(&recs, &vec![true, true]).is_empty());
}

#[test]
fn relink_follows_files_that_reproduce_their_id() {
    let mut recs = vec![
        rec("a.mkv", "/old/a.mkv", 100),
        rec("b.mkv", "/old/b.mkv", 200),
        rec("c.mkv", "/old/c.mkv", 300),
        rec("d.mkv", "/here/d.mkv", 400),
    ];
    let candidates = vec![
        ("/new/a.mkv".to_string(), 100),
        // Same name, different size: a re-encode.
        ("/new/b.mkv".to_string(), 201),
        ("/new/d.mkv".to_string(), 400),
    ];
    let (done, root) = relink(&mut recs, &vec![false, false, false, true], &candidates);
    assert_eq!(done.linked, 1);
    assert_eq!(done.missing, vec!["b.mkv".to_string(), "c.mkv".to_string()]);
    assert_eq!(done.mismatched, vec!["b.mkv".to_string()]);
    assert_eq!(recs[0].path, "/new/a.mkv");
    assert_eq!(recs[1].path, "/old/b.mkv");
    // Present files stay where they are.
    assert_eq!(recs[3].path, "/here/d.mkv");
    assert_eq!(recs[0].id, recording_id("a.mkv", 100));
    assert_eq!(root, "/new/a.mkv, /old/b.mkv, /old/c.mkv, /here/d.mkv");
}

#[test]
fn sources_follow_the_footage() {
    let recs = vec![rec("a.mkv", "/new/a.mkv", 1), rec("b.mkv", "/new/sub/b.mkv", 2)];
    let before = vec![
        "/old/a.mkv".to_string(),
        "/old/folder".to_string(),
        "/elsewhere/b.mkv".to_string(),
        "/old/other-folder".to_string(),
    ];
    assert_eq!(
        remap_sources(&recs, &before, "/new"),
        vec!["/new/a.mkv".to_string(), "/new".to_string(), "/new/sub/b.mkv".to_string()]
    );
}
