use groot::watcher::{path_matches, plan_watch, settle_watch, should_reload, WatchStep};

fn s(p: &str) -> String {
    p.to_string()
}

#[test]
fn path_matches_detects_current() {
    let cur = "/a/b.md";
    assert!(path_matches(&[s("/a/b.md")], cur));
    assert!(path_matches(&[s("/x.md"), s("/a/b.md")], cur));
    assert!(!path_matches(&[s("/a/c.md")], cur));
    assert!(!path_matches(&[], cur));
}

#[test]
fn path_matches_compares_as_paths() {
    assert!(path_matches(&[s("/a//b.md")], "/a/b.md"));
    assert!(!path_matches(&[s("/a/b.mdx")], "/a/b.md"));
}

#[test]
fn plan_watch_follows_new_directory() {
    match plan_watch(&None, "/docs/a.md") {
        WatchStep::Switch { unwatch, watch } => {
            assert_eq!(unwatch, None);
            assert_eq!(watch, "/docs");
        }
        WatchStep::Keep => panic!("expected a switch"),
    }
    match plan_watch(&Some(s("/old")), "/docs/a.md") {
        WatchStep::Switch { unwatch, watch } => {
            assert_eq!(unwatch, Some(s("/old")));
            assert_eq!(watch, "/docs");
        }
        WatchStep::Keep => panic!("expected a switch"),
    }
}

#[test]
fn plan_watch_keeps_same_directory() {
    assert!(matches!(plan_watch(&Some(s("/docs")), "/docs/b.md"), WatchStep::Keep));
    assert!(matches!(plan_watch(&Some(s("/docs/")), "/docs/b.md"), WatchStep::Keep));
    assert!(matches!(plan_watch(&None, "/"), WatchStep::Keep));
}

#[test]
fn settle_watch_records_outcome() {
    let step = WatchStep::Switch { unwatch: Some(s("/old")), watch: s("/new") };
    assert_eq!(settle_watch(Some(s("/old")), step, true), Some(s("/new")));
    let step = WatchStep::Switch { unwatch: Some(s("/old")), watch: s("/new") };
    assert_eq!(settle_watch(Some(s("/old")), step, false), None);
    assert_eq!(settle_watch(Some(s("/old")), WatchStep::Keep, false), Some(s("/old")));
}

#[test]
fn reload_only_for_the_open_file() {
    assert!(should_reload(&[s("/x.md"), s("/a/b.md")], &Some(s("/a/b.md"))));
    assert!(!should_reload(&[s("/x.md")], &Some(s("/a/b.md"))));
    assert!(!should_reload(&[s("/a/b.md")], &None));
}
