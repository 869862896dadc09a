//! The decisions behind the application menu: what a click on an item
//! does, what the Open Recent submenu lists, and which dropped file opens.

use vstd::prelude::*;
use crate::appearance::Appearance;
use crate::paths::{extension, path_extension, path_texts};
use crate::text::str_equals;

verus! {

/// An event that the menu forwards to the editor front end.
#[derive(Debug, Clone, Copy, PartialEq, Eq, Structural)]
pub enum AppEvent {
    NewFile,
    Save,
    SaveAs,
    Find,
    ToggleOutline,
    ToggleStatusBar,
    CommandPalette,
    ExportHtml,
    Print,
}

/// The name under which an event is emitted.
pub open spec fn event_name(e: AppEvent) -> Seq<char> {
    match e {
        AppEvent::NewFile => "new-file"@,
        AppEvent::Save => "save"@,
        AppEvent::SaveAs => "save-as"@,
        AppEvent::Find => "find"@,
        AppEvent::ToggleOutline => "toggle-outline"@,
        AppEvent::ToggleStatusBar => "toggle-status-bar"@,
        AppEvent::CommandPalette => "command-palette"@,
        AppEvent::ExportHtml => "export-html"@,
        AppEvent::Print => "print"@,
    }
}

impl AppEvent {
    pub fn name(self) -> (r: &'static str)
        ensures
            r@ == event_name(self),
    {
        match self {
            AppEvent::NewFile => {
                proof {
                    reveal_strlit("new-file");
                }
                "new-file"
            },
            AppEvent::Save => {
                proof {
                    reveal_strlit("save");
                }
                "save"
            },
            AppEvent::SaveAs => {
                proof {
                    reveal_strlit("save-as");
                }
                "save-as"
            },
            AppEvent::Find => {
                proof {
                    reveal_strlit("find");
                }
                "find"
            },
            AppEvent::ToggleOutline => {
                proof {
                    reveal_strlit("toggle-outline");
                }
                "toggle-outline"
            },
            AppEvent::ToggleStatusBar => {
                proof {
                    reveal_strlit("toggle-status-bar");
                }
                "toggle-status-bar"
            },
            AppEvent::CommandPalette => {
                proof {
                    reveal_strlit("command-palette");
                }
                "command-palette"
            },
            AppEvent::ExportHtml => {
                proof {
                    reveal_strlit("export-html");
                }
                "export-html"
            },
            AppEvent::Print => {
                proof {
                    reveal_strlit("print");
                }
                "print"
            },
        }
    }
}

/// What a click on a menu item does.
pub enum MenuAction {
    /// Show the native Open dialog for Markdown files.
    OpenFileDialog,
    /// Forward an event to the front end.
    Emit(AppEvent),
    /// Empty the recent-files list.
    ClearRecent,
    /// Do nothing (the disabled "No Recent Files" placeholder).
    Ignore,
    /// Switch to an appearance.
    SetAppearance(Appearance),
    /// Open the recent file whose path is the item's id.
    OpenRecent(String),
}

/// The action of the menu items with a fixed id; `None` for the others,
/// whose id is the path of a recent file.
pub open spec fn fixed_action(id: Seq<char>) -> Option<MenuAction> {
    if id == "open_file"@ {
        Some(MenuAction::OpenFileDialog)
    } else if id == "new_file"@ {
        Some(MenuAction::Emit(AppEvent::NewFile))
    } else if id == "save"@ {
        Some(MenuAction::Emit(AppEvent::Save))
    } else if id == "save_as"@ {
        Some(MenuAction::Emit(AppEvent::SaveAs))
    } else if id == "clear_recent"@ {
        Some(MenuAction::ClearRecent)
    } else if id == "find"@ {
        Some(MenuAction::Emit(AppEvent::Find))
    } else if id == "toggle_outline"@ {
        Some(MenuAction::Emit(AppEvent::ToggleOutline))
    } else if id == "toggle_status_bar"@ {
        Some(MenuAction::Emit(AppEvent::ToggleStatusBar))
    } else if id == "command_palette"@ {
        Some(MenuAction::Emit(AppEvent::CommandPalette))
    } else if id == "export_html"@ {
        Some(MenuAction::Emit(AppEvent::ExportHtml))
    } else if id == "print"@ {
        Some(MenuAction::Emit(AppEvent::Print))
    } else if id == "no_recent"@ {
        Some(MenuAction::Ignore)
    } else if id == "appearance_light"@ {
        Some(MenuAction::SetAppearance(Appearance::Light))
    } else if id == "appearance_dark"@ {
        Some(MenuAction::SetAppearance(Appearance::Dark))
    } else if id == "appearance_system"@ {
        Some(MenuAction::SetAppearance(Appearance::System))
    } else {
        None
    }
}

/// Dispatch a menu click by item id.
pub fn menu_action(id: &str) -> (r: MenuAction)
    ensures
        match fixed_action(id@) {
            Some(a) => r == a,
            None => r matches MenuAction::OpenRecent(p) && p@ == id@,
        },
{
    if str_equals(id, "open_file") {
        MenuAction::OpenFileDialog
    } else if str_equals(id, "new_file") {
        MenuAction::Emit(AppEvent::NewFile)
    } else if str_equals(id, "save") {
        MenuAction::Emit(AppEvent::Save)
    } else if str_equals(id, "save_as") {
        MenuAction::Emit(AppEvent::SaveAs)
    } else if str_equals(id, "clear_recent") {
        MenuAction::ClearRecent
    } else if str_equals(id, "find") {
        MenuAction::Emit(AppEvent::Find)
    } else if str_equals(id, "toggle_outline") {
        MenuAction::Emit(AppEvent::ToggleOutline)
    } else if str_equals(id, "toggle_status_bar") {
        MenuAction::Emit(AppEvent::ToggleStatusBar)
    } else if str_equals(id, "command_palette") {
        MenuAction::Emit(AppEvent::CommandPalette)
    } else if str_equals(id, "export_html") {
        MenuAction::Emit(AppEvent::ExportHtml)
    } else if str_equals(id, "print") {
        MenuAction::Emit(AppEvent::Print)
    } else if str_equals(id, "no_recent") {
        MenuAction::Ignore
    } else if str_equals(id, "appearance_light") {
        MenuAction::SetAppearance(Appearance::Light)
    } else if str_equals(id, "appearance_dark") {
        MenuAction::SetAppearance(Appearance::Dark)
    } else if str_equals(id, "appearance_system") {
        MenuAction::SetAppearance(Appearance::System)
    } else {
        MenuAction::OpenRecent(String::from_str(id))
    }
}

/// An entry of the Open Recent submenu.
pub enum MenuEntry {
    Item { label: String, id: String, enabled: bool },
    Separator,
}

/// Whether `e` is an item with the given label, id and enabled state.
pub open spec fn is_item(e: MenuEntry, label: Seq<char>, id: Seq<char>, enabled: bool) -> bool {
    e matches MenuEntry::Item { label: l, id: i, enabled: en } && l@ == label && i@ == id && en
        == enabled
}

/// The entries of the Open Recent submenu for a list of recent paths: a
/// disabled "No Recent Files" placeholder when the list is empty; else one
/// item per path (labelled and identified by the path), a separator and
/// "Clear Recent".
pub open spec fn recent_entries_ok(paths: Seq<Seq<char>>, r: Seq<MenuEntry>) -> bool {
    if paths.len() == 0 {
        r.len() == 1 && is_item(r[0], "No Recent Files"@, "no_recent"@, false)
    } else {
        &&& r.len() == paths.len() + 2
        &&& forall|i: int| 0 <= i < paths.len() ==> is_item(#[trigger] r[i], paths[i], paths[i], true)
        &&& r[paths.len() as int] is Separator
        &&& is_item(r[paths.len() as int + 1], "Clear Recent"@, "clear_recent"@, true)
    }
}

/// The Open Recent submenu for the current recent-files list.
pub fn recent_menu_entries(paths: &[String]) -> (r: Vec<MenuEntry>)
    ensures
        recent_entries_ok(path_texts(paths@), r@),
{
    let mut r: Vec<MenuEntry> = Vec::new();
    let n: usize = paths.len();
    if n == 0 {
        r.push(
            MenuEntry::Item {
                label: String::from_str("No Recent Files"),
                id: String::from_str("no_recent"),
                enabled: false,
            },
        );
        return r;
    }
    let mut i: usize = 0;
    while i < n
        invariant
            n == paths@.len(),
            i <= n,
            r@.len() == i,
            forall|j: int| 0 <= j < i ==> is_item(#[trigger] r@[j], paths@[j]@, paths@[j]@, true),
        decreases n - i,
    {
        let label = paths[i].clone();
        let id = paths[i].clone();
        r.push(MenuEntry::Item { label, id, enabled: true });
        i = i + 1;
    }
    r.push(MenuEntry::Separator);
    r.push(
        MenuEntry::Item {
            label: String::from_str("Clear Recent"),
            id: String::from_str("clear_recent"),
            enabled: true,
        },
    );
    r
}

/// ASCII lowercase of a character.
pub open spec fn ascii_lower(c: char) -> char {
    if 'A' <= c && c <= 'Z' {
        ((c as u32) + 32) as char
    } else {
        c
    }
}

/// Whether a path names a Markdown file: its extension, in ASCII lowercase,
/// is `md` or `markdown`.
pub open spec fn is_markdown_path(p: Seq<char>) -> bool {
    match path_extension(p) {
        Some(e) => {
            let lower = e.map_values(|c: char| ascii_lower(c));
            lower == "md"@ || lower == "markdown"@
        },
        None => false,
    }
}

/// Whether `s`, in ASCII lowercase, equals the lowercase word `t`.
fn lower_equals(s: &str, t: &str) -> (r: bool)
    ensures
        r == (s@.map_values(|c: char| ascii_lower(c)) == t@),
{
    let n: usize = s.unicode_len();
    if n != t.unicode_len() {
        assert(s@.map_values(|c: char| ascii_lower(c)).len() != t@.len());
        return false;
    }
    let ghost lower = s@.map_values(|c: char| ascii_lower(c));
    let mut i: usize = 0;
    while i < n
        invariant
            n == s@.len(),
            n == t@.len(),
            lower == s@.map_values(|c: char| ascii_lower(c)),
            i <= n,
            forall|j: int| 0 <= j < i ==> lower[j] == t@[j],
        decreases n - i,
    {
        let c = s.get_char(i);
        let d = t.get_char(i);
        let cu: u32 = c as u32;
        let du: u32 = d as u32;
        let same = if 65 <= cu && cu <= 90 {
            cu + 32 == du
        } else {
            cu == du
        };
        proof {
            assert(lower[i as int] == ascii_lower(c));
            if 65 <= cu && cu <= 90 {
                assert('A' <= c && c <= 'Z');
            } else {
                assert(!('A' <= c && c <= 'Z'));
            }
        }
        if !same {
            assert(lower[i as int] != t@[i as int]);
            return false;
        }
        i = i + 1;
    }
    assert(lower =~= t@);
    true
}

/// Whether a path names a Markdown file (`.md` or `.markdown`, any case).
pub fn is_markdown_file(p: &str) -> (r: bool)
    ensures
        r == is_markdown_path(p@),
{
    match extension(p) {
        Some(e) => {
            proof {
                reveal_strlit("md");
                reveal_strlit("markdown");
            }
            lower_equals(e.as_str(), "md") || lower_equals(e.as_str(), "markdown")
        },
        None => false,
    }
}

/// The first dropped path that names a Markdown file.
pub fn first_markdown_path(paths: &[String]) -> (r: Option<usize>)
    ensures
        match r {
            Some(i) => i < paths@.len() && is_markdown_path(paths@[i as int]@) && forall|j: int|
                0 <= j < i ==> !is_markdown_path(#[trigger] paths@[j]@),
            None => forall|j: int| 0 <= j < paths@.len() ==> !is_markdown_path(#[trigger] paths@[j]@),
        },
{
    let n: usize = paths.len();
    let mut i: usize = 0;
    while i < n
        invariant
            n == paths@.len(),
            i <= n,
            forall|j: int| 0 <= j < i ==> !is_markdown_path(#[trigger] paths@[j]@),
        decreases n - i,
    {
        if is_markdown_file(paths[i].as_str()) {
            return Some(i);
        }
        i = i + 1;
    }
    None
}

/// The keyboard shortcut of the menu item with a given id, in Tauri's
/// accelerator syntax; `None` for items without one.
pub open spec fn shortcut(id: Seq<char>) -> Option<Seq<char>> {
    if id == "open_file"@ {
        Some("CmdOrCtrl+O"@)
    } else if id == "new_file"@ {
        Some("CmdOrCtrl+N"@)
    } else if id == "save"@ {
        Some("CmdOrCtrl+S"@)
    } else if id == "save_as"@ {
        Some("CmdOrCtrl+Shift+S"@)
    } else if id == "find"@ {
        Some("CmdOrCtrl+F"@)
    } else if id == "toggle_outline"@ {
        Some("CmdOrCtrl+Shift+O"@)
    } else if id == "toggle_status_bar"@ {
        Some("CmdOrCtrl+/"@)
    } else if id == "command_palette"@ {
        Some("CmdOrCtrl+K"@)
    } else if id == "print"@ {
        Some("CmdOrCtrl+P"@)
    } else if id == "tray_quit"@ {
        Some("CmdOrCtrl+Q"@)
    } else {
        None
    }
}

/// The keyboard shortcut of a menu item.
pub fn accelerator(id: &str) -> (r: Option<&'static str>)
    ensures
        match r {
            Some(a) => shortcut(id@) == Some(a@),
            None => shortcut(id@) is None,
        },
{
    if str_equals(id, "open_file") {
        proof {
            reveal_strlit("CmdOrCtrl+O");
        }
        Some("CmdOrCtrl+O")
    } else if str_equals(id, "new_file") {
        proof {
            reveal_strlit("CmdOrCtrl+N");
        }
        Some("CmdOrCtrl+N")
    } else if str_equals(id, "save") {
        proof {
            reveal_strlit("CmdOrCtrl+S");
        }
        Some("CmdOrCtrl+S")
    } else if str_equals(id, "save_as") {
        proof {
            reveal_strlit("CmdOrCtrl+Shift+S");
        }
        Some("CmdOrCtrl+Shift+S")
    } else if str_equals(id, "find") {
        proof {
            reveal_strlit("CmdOrCtrl+F");
        }
        Some("CmdOrCtrl+F")
    } else if str_equals(id, "toggle_outline") {
        proof {
            reveal_strlit("CmdOrCtrl+Shift+O");
        }
        Some("CmdOrCtrl+Shift+O")
    } else if str_equals(id, "toggle_status_bar") {
        proof {
            reveal_strlit("CmdOrCtrl+/");
        }
        Some("CmdOrCtrl+/")
    } else if str_equals(id, "command_palette") {
        proof {
            reveal_strlit("CmdOrCtrl+K");
        }
        Some("CmdOrCtrl+K")
    } else if str_equals(id, "print") {
        proof {
            reveal_strlit("CmdOrCtrl+P");
        }
        Some("CmdOrCtrl+P")
    } else if str_equals(id, "tray_quit") {
        proof {
            reveal_strlit("CmdOrCtrl+Q");
        }
        Some("CmdOrCtrl+Q")
    } else {
        None
    }
}

/// What a click on the tray menu does.
pub enum TrayAction {
    /// Show, unminimize and focus the main window.
    ShowWindow,
    /// Quit the application.
    Quit,
    /// Do what the application menu does for the same id.
    Menu(MenuAction),
}

/// Dispatch a tray menu click by item id: the tray's own items, and the
/// application menu's action for any other id.
pub fn tray_action(id: &str) -> (r: TrayAction)
    ensures
        id@ == "tray_show"@ ==> r is ShowWindow,
        id@ != "tray_show"@ && id@ == "tray_quit"@ ==> r is Quit,
        id@ != "tray_show"@ && id@ != "tray_quit"@ ==> (r matches TrayAction::Menu(a) && match fixed_action(id@) {
            Some(b) => a == b,
            None => a matches MenuAction::OpenRecent(p) && p@ == id@,
        }),
{
    if str_equals(id, "tray_show") {
        TrayAction::ShowWindow
    } else if str_equals(id, "tray_quit") {
        TrayAction::Quit
    } else {
        TrayAction::Menu(menu_action(id))
    }
}

/// A check item of the Appearance submenu.
pub struct CheckItem {
    pub label: String,
    pub id: String,
    pub checked: bool,
}

/// The label and the id of the Appearance submenu item of an appearance.
pub open spec fn appearance_item(a: Appearance) -> (Seq<char>, Seq<char>) {
    match a {
        Appearance::Light => ("Light"@, "appearance_light"@),
        Appearance::Dark => ("Dark"@, "appearance_dark"@),
        Appearance::System => ("System"@, "appearance_system"@),
    }
}

/// Whether `c` is the item of appearance `a`, checked when `a` is current.
pub open spec fn is_appearance_item(c: CheckItem, a: Appearance, current: Appearance) -> bool {
    &&& c.label@ == appearance_item(a).0
    &&& c.id@ == appearance_item(a).1
    &&& c.checked == (a == current)
}

/// The Appearance submenu: Light, Dark and System, with the current one
/// checked.
pub fn appearance_menu_items(current: Appearance) -> (r: Vec<CheckItem>)
    ensures
        r@.len() == 3,
        forall|i: int| 0 <= i < 3 ==> (#[trigger] r@[i].checked <==> r@[i].id@ == appearance_item(current).1),
        is_appearance_item(r@[0], Appearance::Light, current),
        is_appearance_item(r@[1], Appearance::Dark, current),
        is_appearance_item(r@[2], Appearance::System, current),
{
    let mut r: Vec<CheckItem> = Vec::new();
    r.push(
        CheckItem {
            label: String::from_str("Light"),
            id: String::from_str("appearance_light"),
            checked: current == Appearance::Light,
        },
    );
    r.push(
        CheckItem {
            label: String::from_str("Dark"),
            id: String::from_str("appearance_dark"),
            checked: current == Appearance::Dark,
        },
    );
    r.push(
        CheckItem {
            label: String::from_str("System"),
            id: String::from_str("appearance_system"),
            checked: current == Appearance::System,
        },
    );
    proof {
        reveal_strlit("appearance_light");
        reveal_strlit("appearance_dark");
        reveal_strlit("appearance_system");
        assert("appearance_light"@.len() == 16);
        assert("appearance_dark"@.len() == 15);
        assert("appearance_system"@.len() == 17);
    }
    r
}

/// A menu id with each `_` written as `-`.
pub open spec fn dashed(id: Seq<char>) -> Seq<char> {
    id.map_values(|c: char| if c == '_' { '-' } else { c })
}

/// The event that a menu item emits is named after the item: its id with
/// `_` written as `-` (so `save` emits `save` and `save_as` emits
/// `save-as`).
pub proof fn lemma_emitted_event_named_after_item(id: Seq<char>, e: AppEvent)
    requires
        fixed_action(id) == Some(MenuAction::Emit(e)),
    ensures
        event_name(e) == dashed(id),
{
    reveal_strlit("open_file");
    reveal_strlit("new_file");
    reveal_strlit("save");
    reveal_strlit("save_as");
    reveal_strlit("clear_recent");
    reveal_strlit("find");
    reveal_strlit("toggle_outline");
    reveal_strlit("toggle_status_bar");
    reveal_strlit("command_palette");
    reveal_strlit("export_html");
    reveal_strlit("print");
    reveal_strlit("no_recent");
    reveal_strlit("appearance_light");
    reveal_strlit("appearance_dark");
    reveal_strlit("appearance_system");
    reveal_strlit("new-file");
    reveal_strlit("save-as");
    reveal_strlit("toggle-outline");
    reveal_strlit("toggle-status-bar");
    reveal_strlit("command-palette");
    reveal_strlit("export-html");
    if id == "new_file"@ {
        assert(dashed(id) =~= "new-file"@);
    } else if id == "save"@ {
        assert(dashed(id) =~= "save"@);
    } else if id == "save_as"@ {
        assert(dashed(id) =~= "save-as"@);
    } else if id == "find"@ {
        assert(dashed(id) =~= "find"@);
    } else if id == "toggle_outline"@ {
        assert(dashed(id) =~= "toggle-outline"@);
    } else if id == "toggle_status_bar"@ {
        assert(dashed(id) =~= "toggle-status-bar"@);
    } else if id == "command_palette"@ {
        assert(dashed(id) =~= "command-palette"@);
    } else if id == "export_html"@ {
        assert(dashed(id) =~= "export-html"@);
    } else if id == "print"@ {
        assert(dashed(id) =~= "print"@);
    }
}

/// Different events are emitted under different names.
pub proof fn lemma_event_names_distinct(a: AppEvent, b: AppEvent)
    requires
        a != b,
    ensures
        event_name(a) != event_name(b),
{
    reveal_strlit("new-file");
    reveal_strlit("save");
    reveal_strlit("save-as");
    reveal_strlit("find");
    reveal_strlit("toggle-outline");
    reveal_strlit("toggle-status-bar");
    reveal_strlit("command-palette");
    reveal_strlit("export-html");
    reveal_strlit("print");
    if event_name(a) == event_name(b) {
        assert(event_name(a).len() == event_name(b).len());
        assert(event_name(a)[0] == event_name(b)[0]);
        assert(event_name(a)[1] == event_name(b)[1]);
        assert(event_name(a)[event_name(a).len() - 1] == event_name(b)[event_name(b).len() - 1]);
    }
}

/// Exactly one item of the Appearance submenu is checked, and it is the
/// item of the current appearance.
pub proof fn lemma_exactly_current_checked(current: Appearance, items: Seq<CheckItem>)
    requires
        items.len() == 3,
        is_appearance_item(items[0], Appearance::Light, current),
        is_appearance_item(items[1], Appearance::Dark, current),
        is_appearance_item(items[2], Appearance::System, current),
    ensures
        forall|i: int, j: int|
            0 <= i < 3 && 0 <= j < 3 && #[trigger] items[i].checked && #[trigger] items[j].checked
                ==> i == j,
        exists|i: int| 0 <= i < 3 && #[trigger] items[i].checked && items[i].id@ == appearance_item(current).1,
{
    reveal_strlit("appearance_light");
    reveal_strlit("appearance_dark");
    reveal_strlit("appearance_system");
    match current {
        Appearance::Light => assert(items[0].checked),
        Appearance::Dark => assert(items[1].checked),
        Appearance::System => assert(items[2].checked),
    }
}

} // verus!
