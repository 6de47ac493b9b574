# byteferret

The decisions of a peer-to-peer document vault agent that orchestrates a local Syncthing,
verified with Verus.

- `src/commands/` — `history` and `restore` (archived versions), `doctor` and its repairs,
  `status` and the folders shared with each peer. Each command is a function from what was
  read to the lines and the JSON document that it shows, or to the next step to take.
  `instants.rs` reads the point in time that a version's tag names; versions whose tags
  all name one are ordered by it, the newest first.
  `shown.rs` states what reaches the terminal.
- `src/syncthing/` — the REST API: the request of each operation and the meaning of a
  reply, and percent-encoding.
- `src/json.rs`, `src/text.rs`, `src/output.rs`, `src/agent.rs` — JSON documents, texts,
  output, peers.
- `app/` — the program around it: arguments, HTTP, files, the Syncthing process, and
  floating-point percentages.

Not proved, but believed: what `serde_json` does to a document (`src/json.rs`),
`String::push` (`src/text.rs`) and `String::from_utf8_lossy` (`src/commands/status.rs`).
The sanitizer for terminal text is handed to the library as a function whose result
depends on the text alone.
