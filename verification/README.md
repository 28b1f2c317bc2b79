# clip_win

The verified core of a tray clipboard manager: it records copied texts, lists them
(pinned first, newest first), pins, deletes and clears them under a configurable limit,
keeps snippets and settings, lays out the tray menu and reads back which item was clicked,
and drives pasting, hotkey changes and settings saves as step-by-step flows.

- `src/` — the library, proved with Verus: `text` (whitespace, line folding, trimming),
  `numbers` (decimal text of `i64`), `models` (records, menu titles), `history` (the history
  table and its laws), `settings`, `storage` (the store as a whole), `commands` (what the
  screens ask), `menu` (item ids, click parsing, layout), `paste` (paste flow, clipboard
  listener), `hotkey` (hotkey change and settings save flows).
- `app/` — the program around it: tauri windows, tray and shortcuts, SQLite persistence,
  clipboard access, key sending.
- `tests/` — tests of the library on concrete values.
