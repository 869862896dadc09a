use groot::recent_files::{RecentFiles, MAX_RECENT};

fn s(p: &str) -> String {
    p.to_string()
}

#[test]
fn add_inserts_most_recent_first() {
    let mut r = RecentFiles::new();
    r.add(s("/a.md"));
    r.add(s("/b.md"));
    assert_eq!(r.list(), &[s("/b.md"), s("/a.md")]);
}

#[test]
fn add_dedups_and_moves_to_front() {
    let mut r = RecentFiles::new();
    r.add(s("/a.md"));
    r.add(s("/b.md"));
    r.add(s("/a.md"));
    assert_eq!(r.list(), &[s("/a.md"), s("/b.md")]);
}

#[test]
fn add_caps_at_ten() {
    let mut r = RecentFiles::new();
    for i in 0..15 {
        r.add(format!("/{i}.md"));
    }
    assert_eq!(r.list().len(), 10);
    assert_eq!(r.list()[0], s("/14.md"));
    assert_eq!(r.list()[9], s("/5.md"));
}

#[test]
fn clear_empties() {
    let mut r = RecentFiles::new();
    r.add(s("/a.md"));
    r.clear();
    assert!(r.list().is_empty());
}

#[test]
fn add_dedups_paths_that_compare_equal() {
    let mut r = RecentFiles::new();
    r.add(s("/a/b.md"));
    r.add(s("/c.md"));
    r.add(s("/a//b.md"));
    assert_eq!(r.list(), &[s("/a//b.md"), s("/c.md")]);
}

#[test]
fn max_recent_is_ten() {
    assert_eq!(MAX_RECENT, 10);
}

#[test]
fn remove_deletes_matching_entry() {
    let mut r = RecentFiles::new();
    r.add(s("/a.md"));
    r.add(s("/b.md"));
    r.remove("/a.md");
    assert_eq!(r.list(), &[s("/b.md")]);
}

#[test]
fn prune_with_keeps_only_approved() {
    let mut r = RecentFiles::new();
    r.add(s("/a.md"));
    r.add(s("/b.md"));
    r.add(s("/c.md"));
    let keep = [s("/a.md"), s("/c.md")];
    r.prune_with(|p| keep.contains(p));
    assert_eq!(r.list(), &[s("/c.md"), s("/a.md")]);
}

#[test]
fn json_roundtrip() {
    let mut r = RecentFiles::new();
    r.add(s("/a.md"));
    r.add(s("/b \"quoted\".md"));
    let json = r.to_json().unwrap();
    assert_eq!(json, "[\n  \"/b \\\"quoted\\\".md\",\n  \"/a.md\"\n]");
    let loaded = RecentFiles::from_json(&json);
    assert_eq!(loaded.list(), r.list());
}

#[test]
fn from_json_corrupt_is_empty() {
    assert!(RecentFiles::from_json("not json").list().is_empty());
    assert!(RecentFiles::from_json("[1, 2]").list().is_empty());
    assert!(RecentFiles::from_json("").list().is_empty());
}

#[test]
fn from_json_keeps_stored_order() {
    let r = RecentFiles::from_json("[\"/x.md\", \"/y.md\"]");
    assert_eq!(r.list(), &[s("/x.md"), s("/y.md")]);
}

#[test]
fn empty_list_to_json() {
    assert_eq!(RecentFiles::new().to_json().unwrap(), "[]");
}

#[test]
fn from_json_drops_repeated_paths() {
    let r = RecentFiles::from_json("[\"/x.md\", \"/y.md\", \"/x.md\", \"/y//\", \"/y\"]");
    assert_eq!(r.list(), &[s("/x.md"), s("/y.md"), s("/y//")]);
}

#[test]
fn from_json_caps_at_ten() {
    let paths: Vec<String> = (0..15).map(|i| format!("\"/{i}.md\"")).collect();
    let r = RecentFiles::from_json(&format!("[{}]", paths.join(", ")));
    assert_eq!(r.list().len(), 10);
    assert_eq!(r.list()[0], s("/0.md"));
    assert_eq!(r.list()[9], s("/9.md"));
}

#[test]
fn several_adds_come_back_most_recent_first() {
    let mut r = RecentFiles::new();
    for i in 0..10 {
        r.add(format!("/{i}.md"));
    }
    let expected: Vec<String> = (0..10).rev().map(|i| format!("/{i}.md")).collect();
    assert_eq!(r.list(), expected.as_slice());
}

#[test]
fn default_is_empty() {
    assert!(RecentFiles::default().list().is_empty());
}
