# groot

The verified core of groot, a Markdown desktop editor.

- `src/` — the library, verified with Verus: the appearance setting
  (`appearance`), the recent-files list and its JSON form (`recent_files`,
  `json`), path comparison (`paths`), the standalone HTML export frame
  (`export`), Markdown rendering and sanitizing (`markdown`), live-reload
  watching decisions (`watcher`) and menu decisions (`menu`).
- `tests/` — tests of the library.
- `app/` — the Tauri desktop shell: commands, native menu and tray, file I/O
  and the file watcher, built on the library.
