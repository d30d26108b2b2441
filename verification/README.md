# codex_console

A console for Codex: it lists the sessions of all instances, shows them as timelines, gives them
titles, keeps backups of favorites, and keeps the quotas of accounts up to date.

- `src/` is the library. It decides and computes, on plain values, and every function in it is
  verified. What it takes from `serde_json`, `chrono`, `regex`, `url` and the standard library stands
  in `json_text.rs`, `clock.rs`, `session_file.rs`, `file_uri.rs`, `search.rs` and `text.rs`, with a
  comment on each item that says what is taken for granted.
- `app/` is the rest: files, the database, requests, and the amounts that are reckoned in floating
  point.
- `tests/` runs the library.

The properties that hold of the library as a whole are public proof functions, each in the module
that it is about.
