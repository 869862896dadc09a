//! Verified core of the groot Markdown desktop editor: the appearance
//! setting, the recent-files store, the standalone HTML export frame,
//! the Markdown rendering pipeline, path matching for live reload and the
//! menu decisions.

pub mod text;
pub mod appearance;
pub mod paths;
pub mod json;
pub mod recent_files;
pub mod export;
pub mod markdown;
pub mod watcher;
pub mod menu;
