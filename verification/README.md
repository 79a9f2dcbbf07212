# opencapx

The core of a desktop layer for agents, verified with Verus.

- `src/alerting/`: which events become alerts, where they go and what is sent: silences and
  acknowledgements, frequency, suppression and escalation rules, routes, severities, templates,
  retries, dry runs, and bundles that are signed and sealed.
- `src/capability.rs`, `src/execution.rs`, `src/declaration.rs`: capabilities, who provides them and
  under which permission, and how a call goes from provider to provider.
- `src/automation.rs`, `src/event.rs`, `src/event_replay.rs`: rules on events, reports on sessions and
  recordings.
- `src/config.rs`, `src/backup.rs`: settings and secrets of plugins, backups of the workspace.
- `src/appctl.rs`, `src/audio.rs`, `src/browser.rs`, `src/clipboard.rs`, `src/context.rs`,
  `src/files.rs`: what the core can do itself.
- `src/json.rs`, `src/values.rs`, `src/text.rs`, `src/words.rs`, `src/order.rs`, `src/graph.rs`,
  `src/crypt.rs`: what the others rest on.

Time, stores and the answers of the outside world come in as arguments.
Public proof functions state what holds across functions; their doc comments say it in words.

`app/` surrounds the library: files, network, keychain, clipboard, processes, threads and the
database. `tests/` runs the library.
