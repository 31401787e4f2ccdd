# aliasmgr

A cross-platform manager of command aliases for Bash, Zsh and PowerShell 5.1/7,
written in Verus: the library's behaviour is stated in `requires`/`ensures`
contracts and proved.

## Layout

- `src/` — the verified library.
  - `model`, `validation`, `error`, `exit_code`: the alias record, its checks,
    errors and the tool's exit codes.
  - `storage`, `migrations`, `service`: the alias store (sorted by name, ids and
    names unique, checksummed rows), schema versions, and the service that
    validates and stores aliases.
  - `search`: scoring and ordering of searches.
  - `executor`, `shell`, `shells/*`, `sync`: argument vectors, the generated
    shell files, the profile loader block, and the sync journal.
  - `detection`, `config`: shell detection, paths, settings and the mount
    table.
  - `transfer`, `uninstall`, `rotation`: import/export reports, uninstall
    candidates, backup pruning.
  - `cli`, `commands`, `output`, `gui`: the command-line grammar and commands,
    printed rows, and what the desktop interface exchanges.
  - `text`, `digest`: text helpers and SHA-256 (behind a trusted wrapper).
- `tests/` — tests of the library on concrete values.
- `app/` — the `aliasmgr` program: argument handling, SQLite persistence, file
  locks, serde formats and file I/O around the library.
