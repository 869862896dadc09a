//! Live reload: which file changes concern the open file, and which
//! directory the file watcher follows.

use vstd::prelude::*;
use crate::paths::{opt_text, parent_dir, path_parent, paths_equal, same_path};

verus! {

/// True if any changed path equals the current file.
pub fn path_matches(changed: &[String], current: &str) -> (r: bool)
    ensures
        r == exists|i: int| 0 <= i < changed@.len() && same_path(#[trigger] changed@[i]@, current@),
        (exists|i: int| 0 <= i < changed@.len() && #[trigger] changed@[i]@ == current@) ==> r,
{
    let n: usize = changed.len();
    let mut i: usize = 0;
    while i < n
        invariant
            n == changed@.len(),
            i <= n,
            forall|j: int| 0 <= j < i ==> !same_path(#[trigger] changed@[j]@, current@),
            forall|j: int| 0 <= j < i ==> #[trigger] changed@[j]@ != current@,
        decreases n - i,
    {
        if paths_equal(changed[i].as_str(), current) {
            return true;
        }
        i = i + 1;
    }
    false
}

/// Whether a batch of changed paths calls for reloading the open file: a
/// file is open and one of the changed paths names it.
pub fn should_reload(changed: &[String], current: &Option<String>) -> (r: bool)
    ensures
        r == match *current {
            Some(c) => exists|i: int| 0 <= i < changed@.len() && same_path(#[trigger] changed@[i]@, c@),
            None => false,
        },
        (current matches Some(c) && exists|i: int| 0 <= i < changed@.len() && #[trigger] changed@[i]@ == c@) ==> r,
{
    match current {
        Some(c) => path_matches(changed, c.as_str()),
        None => false,
    }
}

/// What the watcher does when a file is opened.
pub enum WatchStep {
    /// The watcher already follows the file's directory, or the file has none.
    Keep,
    /// Stop following `unwatch` (when there is one) and follow `watch`.
    Switch { unwatch: Option<String>, watch: String },
}

/// The step for opening `file` while the watcher follows `watched`: the
/// file's parent directory is followed from now on, unless it is followed
/// already or the file has no parent.
pub fn plan_watch(watched: &Option<String>, file: &str) -> (r: WatchStep)
    ensures
        match path_parent(file@) {
            None => r is Keep,
            Some(dir) => match *watched {
                Some(w) if same_path(w@, dir) => r is Keep,
                _ => r matches WatchStep::Switch { unwatch, watch } && opt_text(unwatch) == opt_text(*watched) && watch@ == dir,
            },
        },
        opt_text(*watched) matches Some(w) && path_parent(file@) == Some(w) ==> r is Keep,
{
    let dir = match parent_dir(file) {
        Some(d) => d,
        None => return WatchStep::Keep,
    };
    match watched {
        Some(w) => {
            if paths_equal(w.as_str(), dir.as_str()) {
                return WatchStep::Keep;
            }
            WatchStep::Switch { unwatch: Some(w.clone()), watch: dir }
        },
        None => WatchStep::Switch { unwatch: None, watch: dir },
    }
}

/// The directory followed after a step: unchanged after `Keep`; after a
/// switch, the new directory when the watcher accepted it, and none
/// otherwise (the old one was given up).
pub fn settle_watch(watched: Option<String>, step: WatchStep, watch_ok: bool) -> (r: Option<String>)
    ensures
        match step {
            WatchStep::Keep => opt_text(r) == opt_text(watched),
            WatchStep::Switch { unwatch, watch } => if watch_ok {
                opt_text(r) == Some(watch@)
            } else {
                r is None
            },
        },
{
    match step {
        WatchStep::Keep => watched,
        WatchStep::Switch { unwatch: _, watch } => if watch_ok {
            Some(watch)
        } else {
            None
        },
    }
}

} // verus!
