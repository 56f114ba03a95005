use chaptr::project::{
    data_root, forget, get, id_for, mark_unsaved, nice_name, open_inner, put, registry, touch,
    workspace, OpenError, Platform, Project,
};

fn strings(v: &[&str]) -> Vec<String> {
    v.iter().map(|s| s.to_string()).collect()
}

fn project(id: &str, name: &str) -> Project {
    Project {
        id: id.to_string(),
        name: name.to_string(),
        sources: vec![format!("/footage/{name}")],
        created: "2024-03-09T21:00:00".to_string(),
        opened: "2024-03-09T21:00:00".to_string(),
        recordings: 0,
        duration_bits: 0,
        file: None,
        unsaved: false,
    }
}

fn ids(all: &[Project]) -> Vec<&str> {
    all.iter().map(|p| p.id.as_str()).collect()
}

#[test]
fn id_is_the_digest_of_sorted_sources() {
    let id = id_for(&strings(&["/b", "/a"]));
    let expected = blake3::hash("/a\u{0}/b".as_bytes()).to_hex()[..12].to_string();
    assert_eq!(id, expected);
}

#[test]
fn id_ignores_repeated_sources() {
    let a = id_for(&strings(&["/a", "/b", "/a"]));
    assert_eq!(a, id_for(&strings(&["/b", "/a"])));
    let expected = blake3::hash("/a\u{0}/b".as_bytes()).to_hex()[..12].to_string();
    assert_eq!(a, expected);
    assert!(a.len() == 12 && a.chars().all(|c| c.is_ascii_hexdigit() && !c.is_ascii_uppercase()));
}

#[test]
fn id_ignores_source_order() {
    assert_eq!(id_for(&strings(&["/x/clip.mkv", "/y"])), id_for(&strings(&["/y", "/x/clip.mkv"])));
    assert_ne!(id_for(&strings(&["/x"])), id_for(&strings(&["/y"])));
}

#[test]
fn nice_names() {
    assert_eq!(nice_name(&vec![]), "empty");
    assert_eq!(nice_name(&strings(&["/footage/Deadlock"])), "Deadlock");
    assert_eq!(nice_name(&strings(&["/footage/Deadlock/", "/b", "/c"])), "Deadlock +2");
    assert_eq!(nice_name(&strings(&["/"])), "/");
}

#[test]
fn store_paths() {
    assert_eq!(workspace("/data/chaptr", "abc").root, "/data/chaptr/projects/abc");
    assert_eq!(registry("/data/chaptr"), "/data/chaptr/projects.json");
}

#[test]
fn data_roots_per_platform() {
    assert_eq!(data_root(Platform::Windows, Some("C:/Users/me/AppData/Roaming"), None, None), "C:/Users/me/AppData/Roaming/chaptr");
    assert_eq!(data_root(Platform::Windows, None, Some("/home/me"), None), "chaptr");
    assert_eq!(data_root(Platform::MacOs, None, Some("/Users/me"), None), "/Users/me/Library/Application Support/chaptr");
    assert_eq!(data_root(Platform::Other, None, Some("/home/me"), None), "/home/me/.local/share/chaptr");
    assert_eq!(data_root(Platform::Other, None, Some("/home/me"), Some("/xdg")), "/xdg/chaptr");
    assert_eq!(data_root(Platform::Other, None, None, None), ".local/share/chaptr");
}

#[test]
fn put_moves_a_project_to_the_front() {
    let all = vec![project("a", "A"), project("b", "B"), project("c", "C")];
    let all = put(all, project("b", "B2"));
    assert_eq!(ids(&all), vec!["b", "a", "c"]);
    assert_eq!(get(&all, "b").unwrap().name, "B2");
    let all = put(all, project("d", "D"));
    assert_eq!(ids(&all), vec!["d", "b", "a", "c"]);
}

#[test]
fn forget_removes_only_that_project() {
    let all = vec![project("a", "A"), project("b", "B")];
    let all = forget(all, "a");
    assert_eq!(ids(&all), vec!["b"]);
    assert!(get(&all, "a").is_none());
    let all = forget(all, "zzz");
    assert_eq!(ids(&all), vec!["b"]);
}

#[test]
fn mark_unsaved_and_touch() {
    let mut all = vec![project("a", "A"), project("b", "B")];
    mark_unsaved(&mut all, "b");
    assert!(!all[0].unsaved);
    assert!(all[1].unsaved);
    touch(&mut all, "a", 12, 3600f64.to_bits());
    assert_eq!(all[0].recordings, 12);
    assert_eq!(f64::from_bits(all[0].duration_bits), 3600.0);
    assert_eq!(all[1].recordings, 0);
    mark_unsaved(&mut all, "nope");
    assert_eq!(ids(&all), vec!["a", "b"]);
}

#[test]
fn opening_needs_sources() {
    let r = open_inner(vec![], true, &vec![], "now", &vec![]);
    assert_eq!(r.unwrap_err(), OpenError::NoSources);
    assert_eq!(OpenError::NoSources.message(), "pick at least one folder or clip");
}

#[test]
fn opening_needs_the_footage_unless_importing() {
    let sources = strings(&["/here", "/gone", "/also-gone"]);
    let r = open_inner(sources.clone(), true, &vec![true, false, false], "now", &vec![]);
    let e = r.unwrap_err();
    assert_eq!(e, OpenError::Missing("/gone".to_string()));
    assert_eq!(e.message(), "/gone does not exist");
    let p = open_inner(sources, false, &vec![true, false, false], "now", &vec![]).unwrap();
    assert_eq!(p.name, "here +2");
}

#[test]
fn opening_new_and_known_projects() {
    let sources = strings(&["/footage/night"]);
    let p = open_inner(sources.clone(), true, &vec![true], "t1", &vec![]).unwrap();
    assert_eq!(p.id, id_for(&sources));
    assert_eq!(p.name, "night");
    assert_eq!(p.created, "t1");
    assert_eq!(p.opened, "t1");
    assert!(p.file.is_none() && !p.unsaved && p.recordings == 0);

    let mut known = p;
    known.name = "renamed".to_string();
    known.recordings = 7;
    known.unsaved = true;
    let registry = vec![project("other", "O"), known];
    let q = open_inner(sources, true, &vec![true], "t2", &registry).unwrap();
    assert_eq!(q.name, "renamed");
    assert_eq!(q.recordings, 7);
    assert!(q.unsaved);
    assert_eq!(q.created, "t1");
    assert_eq!(q.opened, "t2");
}
