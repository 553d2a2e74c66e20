# generic_launcher

An application launcher for Wayland desktops: a layer-shell window with a
search bar over the installed `.desktop` applications, a clock whose calendar
keeps per-day notes and markings, a volume button and a screenshot button.

The logic is a Verus-verified library (`src/`):

- `text`, `entry_buffer`: UTF-8 positions and the text of the search entry.
- `desktop_entry`: the applications folders of the XDG data directories and
  the entries read from `.desktop` files.
- `search`: scoring and ranking of entries against the typed text.
- `launcher`: selection, paging and scrolling of the result boxes, Enter,
  hovering and showing or hiding the window.
- `calendar`: dates, markings, the notes file, month pages and day selection.
- `user_config`, `clock`, `toml_doc`: settings, clock padding, TOML access.

`app/` is the GTK program around it: widgets, signals, files and processes.
