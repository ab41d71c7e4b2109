# xiaokui_alive

A desktop companion for the Codex CLI: it drives a Codex app-server over a
WebSocket (JSON-RPC), lists and reloads past Codex sessions, follows the
session logs to show what a Discord bot is doing through Codex, and starts and
stops that bot.

The decisions are a Verus-verified library in `src/`:

- `codex` — request bookkeeping (identifiers, pending answers), the request and
  notification messages, and the routing of incoming messages to waiting
  requests or to front-end events.
- `activity` — Discord activity found in session-log records, with the state of
  the current Discord turn.
- `sessions` — titles, the session catalog, the merged and sorted thread list,
  thread history, and session-log file names.
- `watcher` — which logs are followed and from which byte offset.
- `bot` — where the bot runtime is found, the status reported for it, and how it
  is launched.
- `home`, `images` — Codex's file locations and the temporary image files.
- `json`, `text` — the JSON value type (read from and written to text through
  serde_json) and text helpers the contracts are stated over.
- `disk` — answers read from the disk, each holding the path asked about.

`app/` is the Tauri shell: commands, processes, sockets, files, and the
conversions between serde values and the library's types for the front end. `app::run` takes the
Tauri builder and context from the binary.
