# ternitor

Hides the blank console windows Windows opens for processes that have no
console of their own, from the notification area.

The library in `src/` holds the decisions, each with a contract proved by
Verus:

- `janitor` — which windows are hidden (Windows Terminal's window, and only
  when the broker's `-Embedding` flag is on its owner's command line: two
  conditions, never one, so a terminal a person opened is never touched), the
  re-check that gives back real shells, where focus goes after a hide, and the
  bounded memory of windows given back. The janitor is a state machine: the
  program feeds it window events and the titles it reads, and carries out the
  hides and shows it answers with.
- `update` — the version in a manifest's `[package]` section, and the numeric
  comparison of versions.
- `mark` — the `.ico` file's bytes around the rasters of the app mark.
- `ui`, `tray`, `app`, `theme`, `log`, `autostart`, `win` — what the settings
  surface, the tray and the log say, how the Start with Windows punch answers
  the pointer, and the strings and registry values the Win32 calls take.
- `text` — ASCII case folding, Unicode whitespace, decimal numerals and UTF-16,
  which the contracts above are stated over.

`app/` is the Windows program around it: the window-event hooks, the tray icon,
the GDI drawing of the settings sheet, the floating-point rasters of the mark,
the registry, the log file and the update check's HTTP request. It builds for
Windows only.

`tests/` runs the library on concrete inputs.
