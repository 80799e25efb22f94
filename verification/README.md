# spruce_grove

The verified core of the Spruce Grove desktop shell: everything the shell decides,
proved with Verus, while the Tauri application around it runs processes, touches the
disk and talks to the webview.

- `src/` — the library. `recordings` (the recording library: saves, patches, locks,
  splices, exports), `studio_auth` (owner PIN and record tags), `acp` (the ACP
  JSON-RPC router), `inspector` (git/gh parsing, settings, payloads), `project` (the
  Core Project View), `ledger` (the action ledger), `shell` (CLI launch and answers),
  `subprocess` (deadlines and output caps for helper processes), `audit` (the
  security floor), with `json`, `text`, `ansi`, `crypto`, `clock` and `disk` beneath
  them. The library reads and builds JSON values; turning them into text is the
  shell's, with `serde_json`. Each module states its laws as `law_*` proof functions.
- `tests/` — the library's tests.
- `app/` — the Tauri shell: commands, processes, files, JSON text, and the serde forms.
