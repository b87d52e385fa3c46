# famitracker2midi

Converts FamiTracker / Dn-FamiTracker text exports into Standard MIDI Files.
Expansion chips (VRC6, VRC7, FDS, MMC5, N163, 5B) are detected from the
`EXPANSION` header.

The library under `src/` is written in Verus, and every function in it is
proved against its contract, save a few small trusted wrappers around
`String::push` and the `std::path::Path` methods used for output names:

- `text.rs` — character-level operations: trimming, splitting on whitespace
  and on `" : "`, reading decimal and hexadecimal numbers.
- `parser.rs` — the export parser; `parse_module` is proved equal to a
  line-by-line model of the format (`parse_export`).
- `chips.rs` — expansion bitfield to channel layout, labels and programs.
- `midi.rs` — the MIDI writer: variable-length quantities, the stable
  ordering of track events, track and file chunks.
- `convert.rs` — order/pattern traversal into note events, one track per
  channel that plays at least one note.
- `paths.rs` — output file names.

`app/main.rs` is the command line: argument handling, reading and writing
files, and the tempo, which is computed in floating point.
