# agent_connectors

Connectors that read the sessions of coding agents (GitHub Copilot, miniharness,
Muse) and give them one shape: conversations with numbered messages, bounds in
time, a title, a workspace and the raw records they came from.

The library decides everything as a function of its arguments. A look at the disk
is a value, `disk::Disk`; the directories of the user are another,
`scan::UserDirs`. What each function returns is stated in its contract and proved
by Verus; what holds of the library as a whole stands in the functions whose names
start with `law_`.

- `src/text.rs`, `paths.rs`, `order.rs`, `timeline.rs`: texts, paths, sorting and
  times.
- `src/json.rs`, `document.rs`, `content.rs`: JSON values, and reading them with
  `serde_json`.
- `src/disk.rs`, `scan.rs`, `types.rs`: the file system, what to scan, and what
  comes out.
- `src/vscode_chat.rs`, `replay_laws.rs`: replaying VS Code's chat session logs.
- `src/copilot/`, `src/miniharness/`, `src/muse/`: the connectors.
- `app/`: the connectors on this machine. It looks at the file system, reads files
  and SQLite databases, and hands the library what it saw.
