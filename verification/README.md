# headlamp

A test-run reporter for Jest, pytest, `cargo test` and `cargo nextest`,
written in Verus. The library under `src/` holds the logic with its
contracts and proofs: reading each runner's output into a run model
(`format/`), merging and ordering Jest bridge results (`jest_bridge`),
choosing the tests a change selects (`jest_selection`, `fast_related`,
`git_changes`), the arguments of each runner (`jest_args`, `pytest_args`,
`jest_discovery`), live progress (`live_progress`), dealing work to
workers that run side by side (`parallel_stride`) and the shared text and
path helpers (`text`, `path_names`). Calls into outside crates go through
small trusted wrappers whose contracts are stated next to them.

`app/` is a small command-line driver around part of the library. For
`cargo test` and `cargo nextest` it starts the runner, feeds its output
line by line to the library's stream parsers, shows live progress and
prints the library's summary of the run. For Jest it checks the Jest
binary and the configuration files with the library, adds `--config`
where several projects exist, and streams Jest's output through the
library's adapter; it does not drive test selection, per-project
discovery, the bridge merge, rendering or coverage, whose steps the
library provides as separate functions. pytest is run as it is.
