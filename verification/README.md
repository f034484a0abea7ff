# codex2api_desktop

The Windows desktop shell of Codex2API starts the `codex2api.exe` backend,
waits until its `/health` endpoint answers, and then opens the embedded admin
console. This crate holds the shell's logic as a library verified with Verus;
`app/` is the Tauri program around it (windows, tray, processes, files, sockets).

- `src/text.rs`: characters of strings, `str::lines`, `str::trim`, joining lines.
- `src/env.rs`: the port setting of `.env` and the generated default `.env`.
- `src/endpoint.rs`: the admin URL, the health request and the judgement of its answer.
- `src/json.rs`: calls into `serde_json`, and the scripts evaluated in the window.
- `src/status.rs`: the start-up stages shown on the start page.
- `src/monitor.rs`: the start-up monitor and the rules for stopping the backend.
- `src/tray.rs`: the tray menu and tray icon events.
