# zmp

The logic of the zmp music player as a verified library, with a thin
program around it.

- `src/` is the library, verified with Verus: the play queue and the order in
  which songs are tried, settings and what each update writes, the search text
  of songs and the in-memory search, grouping of query rows, filter tags and
  their sync with the store, the music folder rescan plan, and the decimal and
  text helpers these need.
- `tests/` runs the library on concrete values.
- `app/` is ordinary Rust around it: the SQLite store (sqlx), tag reading and
  writing (lofty, id3, walkdir), audio output (rodio), the folder watcher
  (notify, tokio) and the serde shapes the interface receives.
