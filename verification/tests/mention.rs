use codeoid::mention::{split_query, suggest, FileSuggestion, ListedEntry};

fn entry(name: &str, is_dir: bool) -> ListedEntry {
    ListedEntry { name: name.to_string(), is_dir }
}

/// The top level of a small project tree.
fn top_level() -> Vec<ListedEntry> {
    vec![
        entry("Cargo.toml", false),
        entry("README.md", false),
        entry(".hidden", false),
        entry("src", true),
    ]
}

/// The `src/` directory of the same tree.
fn src_dir() -> Vec<ListedEntry> {
    vec![entry("main.rs", false), entry("render", true)]
}

fn names(out: &[FileSuggestion]) -> Vec<&str> {
    out.iter().map(|s| s.display.as_str()).collect()
}

#[test]
fn empty_query_lists_top_level_visible_entries() {
    let out = suggest("", Some(top_level()), 50);
    let names = names(&out);
    assert!(names.contains(&"Cargo.toml"));
    assert!(names.contains(&"README.md"));
    assert!(names.contains(&"src/"), "dirs get a trailing slash: {names:?}");
    assert!(!names.iter().any(|n| n.starts_with('.')));
}

#[test]
fn fuzzy_ranks_filename() {
    let out = suggest("carg", Some(top_level()), 10);
    assert_eq!(out.first().map(|s| s.display.as_str()), Some("Cargo.toml"));
}

#[test]
fn descends_into_subdirectory_prefix() {
    let out = suggest("src/ma", Some(src_dir()), 10);
    assert_eq!(out.first().map(|s| s.display.as_str()), Some("src/main.rs"));
}

#[test]
fn nested_directory_keeps_trailing_slash() {
    let out = suggest("src/rend", Some(src_dir()), 10);
    assert_eq!(out.first().map(|s| s.display.as_str()), Some("src/render/"));
    assert!(out[0].is_dir);
}

#[test]
fn leading_dot_reveals_hidden() {
    let out = suggest(".hid", Some(top_level()), 10);
    assert_eq!(out.first().map(|s| s.display.as_str()), Some(".hidden"));
}

#[test]
fn missing_directory_is_empty_not_error() {
    let out = suggest("x", None, 10);
    assert!(out.is_empty());
}

#[test]
fn limit_is_respected() {
    let out = suggest("", Some(top_level()), 1);
    assert_eq!(out.len(), 1);
}

#[test]
fn query_splits_at_last_slash() {
    assert_eq!(split_query("src/render/mo"), ("src/render/".to_string(), "mo".to_string()));
    assert_eq!(split_query("main"), (String::new(), "main".to_string()));
    assert_eq!(split_query("src/"), ("src/".to_string(), String::new()));
    assert_eq!(split_query(""), (String::new(), String::new()));
}

#[test]
fn equal_scores_keep_listing_order() {
    let listing = vec![entry("b", false), entry("a", false), entry("c", true)];
    let out = suggest("", Some(listing), 10);
    assert_eq!(names(&out), vec!["b", "a", "c/"]);
}

#[test]
fn best_match_first() {
    // "mo": "model" scores -149, "demo" -45, "autonomous" -37.
    let listing = vec![entry("demo", false), entry("autonomous", false), entry("model", true)];
    let out = suggest("mo", Some(listing), 10);
    assert_eq!(names(&out), vec!["model/", "demo", "autonomous"]);
}

#[test]
fn non_matching_entries_dropped() {
    let out = suggest("zz", Some(top_level()), 10);
    assert!(out.is_empty());
}

#[test]
fn zero_limit_gives_nothing() {
    let out = suggest("", Some(top_level()), 0);
    assert!(out.is_empty());
}

#[test]
fn suggestions_keep_directory_prefix() {
    let out = suggest("src/", Some(src_dir()), 10);
    assert_eq!(names(&out), vec!["src/main.rs", "src/render/"]);
    assert!(out.iter().all(|s| s.display.starts_with("src/")));
    assert!(out.iter().filter(|s| s.is_dir).all(|s| s.display.ends_with('/')));
}

#[test]
fn hidden_entries_need_a_leading_dot() {
    let out = suggest("hid", Some(top_level()), 10);
    assert!(out.is_empty());
    let out = suggest(".", Some(top_level()), 10);
    assert_eq!(names(&out), vec![".hidden", "Cargo.toml", "README.md"]);
}

#[test]
fn limit_keeps_the_best_matches() {
    let listing = vec![entry("demo", false), entry("autonomous", false), entry("model", true)];
    let out = suggest("mo", Some(listing), 2);
    assert_eq!(names(&out), vec!["model/", "demo"]);
}

#[test]
fn displays_are_distinct() {
    let listing = vec![entry("src", true), entry("src.rs", false), entry("srcs", false)];
    let out = suggest("src", Some(listing), 10);
    let mut names: Vec<&str> = names(&out);
    assert_eq!(names.len(), 3);
    names.sort();
    names.dedup();
    assert_eq!(names.len(), 3);
}
