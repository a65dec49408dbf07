use terb::config::confirms_creation;
use terb::paths::{file_stem, join_path};
use terb::text::{str_less, trim_str};

#[test]
fn trim_removes_surrounding_white_space() {
    assert_eq!(trim_str("  hello world \n"), "hello world");
    assert_eq!(trim_str("\t\r\n"), "");
    assert_eq!(trim_str("\u{3000}x\u{a0}"), "x");
    assert_eq!(trim_str("a b"), "a b");
}

#[test]
fn trim_twice_is_trim_once() {
    let once = trim_str("  \u{2003} value \u{85}");
    assert_eq!(trim_str(&once), once);
}

#[test]
fn confirmation_accepts_only_y() {
    assert!(confirms_creation("Y\n"));
    assert!(confirms_creation("  Y  "));
    assert!(!confirms_creation("y\n"));
    assert!(!confirms_creation("Yes\n"));
    assert!(!confirms_creation("\n"));
}

#[test]
fn string_order_is_code_point_order() {
    assert!(str_less("2023-01-01", "2024-01-01"));
    assert!(!str_less("2024-01-01", "2023-01-01"));
    assert!(!str_less("same", "same"));
    assert!(str_less("abc", "abcd"));
    assert!(!str_less("abcd", "abc"));
    assert!(str_less("", "a"));
    assert!(str_less("Z", "a"));
    assert!(str_less("z", "\u{e9}"));
}

#[test]
fn join_follows_path_join() {
    assert_eq!(join_path("out", "a.html"), "out/a.html");
    assert_eq!(join_path("out/", "a.html"), "out/a.html");
    assert_eq!(join_path("out", "/etc/hosts"), "/etc/hosts");
    assert_eq!(join_path("", "x"), "x");
    assert_eq!(join_path("out", ""), "out/");
}

#[test]
fn stem_follows_file_stem() {
    assert_eq!(file_stem("post.md"), "post");
    assert_eq!(file_stem("a.b.c"), "a.b");
    assert_eq!(file_stem("noext"), "noext");
    assert_eq!(file_stem(".hidden"), ".hidden");
    assert_eq!(file_stem(".."), "..");
    assert_eq!(file_stem("a."), "a");
    assert_eq!(file_stem(".x.md"), ".x");
}

#[test]
fn stem_matches_std() {
    for name in ["post.md", "a.b.c", "noext", ".hidden", "a.", ".x.md", "x..y", "..z"] {
        let expected = std::path::Path::new(name).file_stem().unwrap().to_str().unwrap().to_string();
        assert_eq!(file_stem(name), expected, "{}", name);
    }
}

#[test]
fn join_matches_std() {
    for (base, rel) in [("out", "a"), ("out/", "a"), ("out", "/abs"), ("out", ""), ("out/posts", "x.html")] {
        let expected = std::path::Path::new(base).join(rel).to_str().unwrap().to_string();
        assert_eq!(join_path(base, rel), expected);
    }
}
