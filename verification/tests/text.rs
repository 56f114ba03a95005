use chaptr::text::{
    contains_str, decimal_string, ends_with, extension_of, file_name, join, join_path, parse_u64,
    sort_strings, split_words, starts_with, take_chars, trim, with_extension, Split,
};

fn strings(v: &[&str]) -> Vec<String> {
    v.iter().map(|s| s.to_string()).collect()
}

#[test]
fn joins_paths_like_pathbuf() {
    assert_eq!(join_path("/data", "projects"), "/data/projects");
    assert_eq!(join_path("/data/", "projects"), "/data/projects");
    assert_eq!(join_path("", "chaptr"), "chaptr");
    assert_eq!(join_path("/data", "/abs"), "/abs");
}

#[test]
fn file_names_like_path() {
    assert_eq!(file_name("/a/b/c.mkv"), Some("c.mkv".to_string()));
    assert_eq!(file_name("c.mkv"), Some("c.mkv".to_string()));
    assert_eq!(file_name("/a/b/"), Some("b".to_string()));
    assert_eq!(file_name("/a/b/."), Some("b".to_string()));
    assert_eq!(file_name("/a/.."), None);
    assert_eq!(file_name("/"), None);
    assert_eq!(file_name(""), None);
}

#[test]
fn extensions_like_path() {
    assert_eq!(extension_of("a.mkv"), Some("mkv".to_string()));
    assert_eq!(extension_of("a.tar.gz"), Some("gz".to_string()));
    assert_eq!(extension_of(".hidden"), None);
    assert_eq!(extension_of("plain"), None);
    assert_eq!(extension_of("trailing."), Some(String::new()));
    assert_eq!(extension_of(".."), None);
}

#[test]
fn with_extension_like_path() {
    assert_eq!(with_extension("models/foo.gguf", "part"), "models/foo.part");
    assert_eq!(with_extension("models/foo", "part"), "models/foo.part");
    assert_eq!(with_extension("a/.hidden", "part"), "a/.hidden.part");
    assert_eq!(with_extension("a/b.txt/", "chaptr"), "a/b.chaptr");
    assert_eq!(with_extension("a/b.txt", ""), "a/b");
    assert_eq!(with_extension("/", "x"), "/");
    assert_eq!(with_extension("a/..", "x"), "a/..");
    assert_eq!(with_extension("proj.chaptr", "chaptr.part"), "proj.chaptr.part");
    for (p, e) in [("x/y.z", "w"), ("x/y", "w"), ("x/.y", "w"), ("x/y.z/.", "w")] {
        let expected = std::path::Path::new(p).with_extension(e).to_string_lossy().into_owned();
        assert_eq!(with_extension(p, e), expected);
    }
}

#[test]
fn parses_unsigned_numbers_like_str_parse() {
    assert_eq!(parse_u64("42"), Some(42));
    assert_eq!(parse_u64("+7"), Some(7));
    assert_eq!(parse_u64("007"), Some(7));
    assert_eq!(parse_u64("18446744073709551615"), Some(u64::MAX));
    assert_eq!(parse_u64("18446744073709551616"), None);
    assert_eq!(parse_u64(""), None);
    assert_eq!(parse_u64("+"), None);
    assert_eq!(parse_u64("-1"), None);
    assert_eq!(parse_u64(" 1"), None);
    assert_eq!(parse_u64("1a"), None);
}

#[test]
fn trims_like_str_trim() {
    assert_eq!(trim("  a b \n"), "a b");
    assert_eq!(trim("\u{3000}x\u{a0}"), "x");
    assert_eq!(trim("   "), "");
}

#[test]
fn splits_words() {
    assert_eq!(split_words(Split::Whitespace, "  a  bb\tc "), strings(&["a", "bb", "c"]));
    assert_eq!(split_words(Split::Alphanumeric, "it's a-ok!"), strings(&["it", "s", "a", "ok"]));
    assert_eq!(split_words(Split::Slash, "/a//b/"), strings(&["a", "b"]));
}

#[test]
fn small_text_helpers() {
    assert_eq!(decimal_string(0), "0");
    assert_eq!(decimal_string(1234567), "1234567");
    assert_eq!(take_chars("héllo", 2), "hé");
    assert_eq!(take_chars("hi", 5), "hi");
    assert_eq!(join(&strings(&["a", "b", "c"]), ", "), "a, b, c");
    assert_eq!(join(&Vec::new(), ", "), "");
    assert!(contains_str("discord call", "cord"));
    assert!(!contains_str("mic", "mics"));
    assert!(starts_with("track 1", "track"));
    assert!(ends_with("model.gguf", ".gguf"));
}

#[test]
fn sorts_strings_by_code_point() {
    assert_eq!(
        sort_strings(strings(&["b", "a", "B", "ab", "a"])),
        strings(&["B", "a", "a", "ab", "b"])
    );
}
