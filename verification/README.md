# codex-migrate

Moves Codex threads and projects between devices: it reads a Codex home
(`.codex`), lists its threads by project, maps old project folders to folders
on this device, plans an import against the local home (new, identical,
longer or divergent copies), carries it out with a rollback journal, and
exports threads as single-file HTML transcripts.

- `src/` is the library, verified with Verus. Every decision is made there
  and stated in contracts: path mapping (`path_mapper`), rollout rewriting
  and canonical forms (`rollout`), reading rollouts (`scanner`), merge rules
  and plans (`merge`, `operations`, `execution`), the session index, the
  desktop state file, SQL statements for the state database
  (`sqlite_adapter`), the rollback journal (`transaction`), health reports
  (`validator`), HTML transcripts (`html_export`), and the selections and
  state of the desktop app (`selection`, `app_state`). Calls into
  `serde_json`, `sha2`, `hex` and `chrono` go through small trusted
  wrappers whose contracts are stated in their doc comments.
- `app/` is the `codex-migrate` command: it reads and writes files, talks to
  SQLite and to the Codex App Server, and prints JSON.
- `tests/` runs the library on concrete homes and rollouts.
