# dnsmasq-cli-rs

Ingests the dnsmasq query log (`log-queries=extra`) into SQLite and shows it in a
terminal UI: a live query stream with search and filters, statistics over a 1 h /
24 h / 7 d window, daily counts, and whitelisting of a domain with a dnsmasq reload.

## Layout

- `src/` — the verified library (Verus):
  - `text.rs` — characters, words, decimal numbers;
  - `model.rs` — query events and outcomes;
  - `parser.rs` — one log line to a query or an outcome;
  - `util.rs` — local-time formatting, offsets and durations;
  - `cli.rs` — the command line;
  - `store.rs` — rows, aggregates, the stored tail position, the clock;
  - `ingest.rs` — correlating query and outcome lines, the tail buffer, the
    decisions of the ingest service;
  - `report.rs` — what `info` and `prune` print;
  - `tui/` — the TUI state and its keys (`mod.rs`), the management actions as a
    sequence of commands (`manage.rs`), and what the screens show (`ui.rs`).
- `app/` — the program around it: the SQLite database (rusqlite), the log file, the
  terminal (ratatui, crossterm), background threads and the `sudo` commands.
- `tests/` — tests of the library.
