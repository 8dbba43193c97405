# scripture_wallpaper

A desktop tool that prints a Bible verse onto a picture and sets it as the
desktop background. This crate holds its logic, verified with Verus.

- `src/` — the verified library:
  - `wrap` — greedy wrapping of a caption into lines that fit a width:
    breaks between CJK characters, and at spaces for words of a
    space-separated script, which are split only when wider than a line.
    Laws: the lines hold the text's non-space characters in order, lines are
    not empty, every line is a stretch of the text whose advances and
    kerning fit the width (or one over-wide character), and a text of
    single-spaced words that each fit comes back when the lines, without a
    final space, are joined with spaces.
  - `compose` — brightness band, average brightness, caption colours, and the
    metadata file written beside a picture (never at the picture's own path).
  - `config` — settings, their defaults, the migration of a legacy settings
    file, and the repairs of settings read from disk.
  - `fonts` — the built-in font registry and the download status check.
  - `database` — the setup of the verse database as a machine driven by the
    database's replies, with the SQL text of each statement (which fixes the
    schema), and the choice of a random verse.
  - `pictures` — choosing a local picture, or one of the Bing archive's
    pictures of the last seven days.
  - `json` — the settings file and the Bing archive reply, read with
    serde_json behind trusted wrappers.
  - `shell` — the daily clock (which fires once in the minute of 06:00),
    tray menu and clicks, hidden start, and the outcomes of setting the
    desktop background.
  - `text` — character-level string operations with specifications.
- `tests/` — tests on concrete values.
- `app/` — the Tauri application around the library: file, network and
  database I/O, image decoding and drawing, and the window shell.
