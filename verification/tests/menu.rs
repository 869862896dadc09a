use groot::appearance::Appearance;
use groot::menu::{accelerator, appearance_menu_items, tray_action, TrayAction, first_markdown_path, is_markdown_file, menu_action, recent_menu_entries, AppEvent, MenuAction, MenuEntry};

fn s(p: &str) -> String {
    p.to_string()
}

#[test]
fn menu_ids_map_to_actions() {
    assert!(matches!(menu_action("open_file"), MenuAction::OpenFileDialog));
    assert!(matches!(menu_action("new_file"), MenuAction::Emit(AppEvent::NewFile)));
    assert!(matches!(menu_action("save"), MenuAction::Emit(AppEvent::Save)));
    assert!(matches!(menu_action("save_as"), MenuAction::Emit(AppEvent::SaveAs)));
    assert!(matches!(menu_action("clear_recent"), MenuAction::ClearRecent));
    assert!(matches!(menu_action("find"), MenuAction::Emit(AppEvent::Find)));
    assert!(matches!(menu_action("toggle_outline"), MenuAction::Emit(AppEvent::ToggleOutline)));
    assert!(matches!(menu_action("toggle_status_bar"), MenuAction::Emit(AppEvent::ToggleStatusBar)));
    assert!(matches!(menu_action("command_palette"), MenuAction::Emit(AppEvent::CommandPalette)));
    assert!(matches!(menu_action("export_html"), MenuAction::Emit(AppEvent::ExportHtml)));
    assert!(matches!(menu_action("print"), MenuAction::Emit(AppEvent::Print)));
    assert!(matches!(menu_action("no_recent"), MenuAction::Ignore));
    assert!(matches!(menu_action("appearance_light"), MenuAction::SetAppearance(Appearance::Light)));
    assert!(matches!(menu_action("appearance_dark"), MenuAction::SetAppearance(Appearance::Dark)));
    assert!(matches!(menu_action("appearance_system"), MenuAction::SetAppearance(Appearance::System)));
}

#[test]
fn other_ids_open_recent_paths() {
    match menu_action("/notes/todo.md") {
        MenuAction::OpenRecent(p) => assert_eq!(p, "/notes/todo.md"),
        _ => panic!("expected a recent file"),
    }
    assert!(matches!(menu_action("Save"), MenuAction::OpenRecent(_)));
}

#[test]
fn event_names() {
    assert_eq!(AppEvent::NewFile.name(), "new-file");
    assert_eq!(AppEvent::SaveAs.name(), "save-as");
    assert_eq!(AppEvent::ToggleStatusBar.name(), "toggle-status-bar");
    assert_eq!(AppEvent::CommandPalette.name(), "command-palette");
    assert_eq!(AppEvent::ExportHtml.name(), "export-html");
    assert_eq!(AppEvent::Print.name(), "print");
}

fn item(e: &MenuEntry) -> (&str, &str, bool) {
    match e {
        MenuEntry::Item { label, id, enabled } => (label.as_str(), id.as_str(), *enabled),
        MenuEntry::Separator => panic!("expected an item"),
    }
}

#[test]
fn empty_recent_menu_has_placeholder() {
    let entries = recent_menu_entries(&[]);
    assert_eq!(entries.len(), 1);
    assert_eq!(item(&entries[0]), ("No Recent Files", "no_recent", false));
}

#[test]
fn recent_menu_lists_paths_then_clear() {
    let entries = recent_menu_entries(&[s("/b.md"), s("/a.md")]);
    assert_eq!(entries.len(), 4);
    assert_eq!(item(&entries[0]), ("/b.md", "/b.md", true));
    assert_eq!(item(&entries[1]), ("/a.md", "/a.md", true));
    assert!(matches!(entries[2], MenuEntry::Separator));
    assert_eq!(item(&entries[3]), ("Clear Recent", "clear_recent", true));
}

#[test]
fn markdown_extensions() {
    assert!(is_markdown_file("/a/notes.md"));
    assert!(is_markdown_file("/a/NOTES.MD"));
    assert!(is_markdown_file("readme.Markdown"));
    assert!(!is_markdown_file("/a/notes.txt"));
    assert!(!is_markdown_file("/a/md"));
    assert!(!is_markdown_file("/a/.md"));
    assert!(!is_markdown_file("/a/notes.mdx"));
}

#[test]
fn first_dropped_markdown_file() {
    assert_eq!(first_markdown_path(&[s("/x.png"), s("/y.MD"), s("/z.md")]), Some(1));
    assert_eq!(first_markdown_path(&[s("/x.png")]), None);
    assert_eq!(first_markdown_path(&[]), None);
}

#[test]
fn keyboard_shortcuts() {
    assert_eq!(accelerator("open_file"), Some("CmdOrCtrl+O"));
    assert_eq!(accelerator("new_file"), Some("CmdOrCtrl+N"));
    assert_eq!(accelerator("save"), Some("CmdOrCtrl+S"));
    assert_eq!(accelerator("save_as"), Some("CmdOrCtrl+Shift+S"));
    assert_eq!(accelerator("find"), Some("CmdOrCtrl+F"));
    assert_eq!(accelerator("toggle_outline"), Some("CmdOrCtrl+Shift+O"));
    assert_eq!(accelerator("toggle_status_bar"), Some("CmdOrCtrl+/"));
    assert_eq!(accelerator("command_palette"), Some("CmdOrCtrl+K"));
    assert_eq!(accelerator("print"), Some("CmdOrCtrl+P"));
    assert_eq!(accelerator("tray_quit"), Some("CmdOrCtrl+Q"));
    assert_eq!(accelerator("export_html"), None);
    assert_eq!(accelerator("clear_recent"), None);
}

#[test]
fn tray_ids_map_to_actions() {
    assert!(matches!(tray_action("tray_show"), TrayAction::ShowWindow));
    assert!(matches!(tray_action("tray_quit"), TrayAction::Quit));
    assert!(matches!(tray_action("new_file"), TrayAction::Menu(MenuAction::Emit(AppEvent::NewFile))));
    assert!(matches!(tray_action("open_file"), TrayAction::Menu(MenuAction::OpenFileDialog)));
}

#[test]
fn appearance_items_check_current() {
    let items = appearance_menu_items(Appearance::Dark);
    assert_eq!(items.len(), 3);
    assert_eq!((items[0].label.as_str(), items[0].id.as_str(), items[0].checked), ("Light", "appearance_light", false));
    assert_eq!((items[1].label.as_str(), items[1].id.as_str(), items[1].checked), ("Dark", "appearance_dark", true));
    assert_eq!((items[2].label.as_str(), items[2].id.as_str(), items[2].checked), ("System", "appearance_system", false));
}
