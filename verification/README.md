# ruso_cli

The logic of the `ruso` command-line tool (scanning targets with Ruso scripts,
installing scripts from a registry, publishing and managing them), written in
Verus with its behaviour stated as `requires` / `ensures` contracts and proved.

Layout:

- `src/` — the verified library. Each module models its data with spec
  functions and views; the laws of the library stand there as public proof
  functions (their names start with `law_`).
  - `targets`, `scan`, `throttle`, `scheme`: reading targets, planning a scan,
    per-host limits and launch spacing, choosing `https` or `http`.
  - `report`, `style`: the run report (JSON/CSV rows, summary table) and
    terminal styling.
  - `install_store`, `install`: installed versions, version selection by a
    semver range, and the install state machine.
  - `registry`, `cmd_registry`, `credentials`: registry URLs and wire records,
    the decisions of each registry command, the stored credentials.
  - `discover`, `paths`, `order`, `text`, `util`: file discovery, path and
    string helpers with their specifications.
- `tests/` — tests of the library on concrete values.
- `app/` — the program around the library: argument parsing, file and network
  I/O, the async scan pipeline and the script engine calls.
