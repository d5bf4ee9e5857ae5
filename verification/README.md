# cmdradio

A terminal internet-radio player whose core is written in Verus and proved
against its contracts.

## Layout

- `src/` — the verified library.
  - `m3u`, `pls`: playlist parsers, each a function on text with a
    specification of the stations it yields; `entries` gives the PLS
    parser's ordered maps in key order.
  - `stream`: the ICY stream demultiplexer (audio bytes separated from the
    in-band metadata blocks) and the `StreamTitle` parser.
  - `favorites`, `history`, `health`, `cache`: the persisted stores, with
    their invariants (no duplicate favorites, bounded history, failure
    counts, a size budget for the playlist cache).
  - `search`, `order`, `scan`, `location`, `paths`: filtering and sorting of
    stations and playlists, the playlist directory walk, path labels and the
    per-platform directories. Paths are read component by component as
    `Path` reads them, with `\` as a separator and a drive prefix on
    Windows (the caller says which platform it runs on).
  - `control`: the application state machine — key handling per screen,
    connection requests (a cancelled worker probes and reports nothing more,
    and events of any request but the active one are ignored), retries over
    candidate stations, automatic failover and output recovery.
  - `labels`, `logger`, `text`: formatting helpers.
- `app/` — the program around the library: terminal drawing (ratatui),
  audio output (rodio/cpal), HTTP (ureq), configuration and JSON files, the
  event loop and the connection worker thread.
- `tests/` — tests of the library on concrete values.

Verification runs Verus on `src/lib.rs`; the laws that span several
operations are public proof functions whose names start with `lemma_`.
