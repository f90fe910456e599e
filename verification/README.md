# noteplan_organizer

A verified library for organizing a NotePlan vault laid out in the Johnny
Decimal style, with a command-line front end.

The library (`src/`) is written in Verus: each public function states what it
returns in its `ensures`, over spec functions and views, and Verus proves it.
It parses notes (titles, tags, wiki links, tasks, content blocks), builds the
folder hierarchy, runs the structural analyzers, renders the assessment dump
and export, builds the ranked backlog from the `#np-backlog` and
`#np-projects` control notes, plans every edit of a backlog write and drives
a write as a state machine (`write_run`), and checks the MCP server's replies
before an edit is trusted.

- `src/parser/`: notes and their parts, the hierarchy, the backlog, the
  project control note and the scoped scan.
- `src/analyzer/`: one module per analyzer; `mod.rs` runs them all.
- `src/backlog_write.rs`, `src/write_run.rs`, `src/commands.rs`: planning,
  running and replaying backlog edits.
- `src/dump.rs`, `src/export.rs`, `src/report.rs`: the texts and the report.
- `src/clock.rs`, `src/text.rs`: the few calls into std and chrono that the
  library trusts, each with its contract.

`app/` is ordinary Rust around the library: reading the vault from disk,
watching it, talking to NotePlan's MCP server, the command line, and the JSON
copies of the library's types. `tests/` runs the library on concrete notes.
