# reclaim

`reclaim` finds the disk space that developer caches and build artifacts take, says how stale each
of them is and what it costs to get back, and removes only what was chosen.

The library under `src/` is written in Verus: every function states what it returns in `requires` /
`ensures` contracts, and Verus proves them. `app/` is the program around it: arguments, files,
processes, the terminal and the local web server.

## Layout

| Where | What |
|---|---|
| `src/text.rs`, `path.rs`, `number.rs`, `sort.rs`, `globbing.rs` | texts, paths, decimal numbers, stable sorting, patterns |
| `src/format.rs`, `model.rs`, `error.rs` | sizes and durations, the domain model, errors |
| `src/platform.rs`, `config.rs`, `disk.rs` | where things are, the settings, what a scan was told of the disk |
| `src/safety.rs` | the guard in front of every removal |
| `src/discovery.rs`, `walk.rs`, `staleness.rs`, `pipeline.rs` | finding projects, measuring, ranking and filtering, the scan as a whole |
| `src/exec.rs`, `journal.rs`, `report.rs` | what a cleanup orders and records, the run history, its figures |
| `src/providers/` | what each ecosystem offers; `rules.rs` and `reach.rs` state what holds of all of them |
| `src/cli/` | arguments, decisions of the commands, reports, schedules, the terminal UI and its frames |
| `src/web/` | tokens, requests and answers of the local web server |
| `app/` | the program |
| `tests/` | tests of the library |

## What is proved

Contracts are exact over mathematical models of the types. Laws that relate several functions are
public proof functions beside them, such as `safety::accepted_paths_clear_every_rule`,
`exec::only_accepted_paths_are_removed`, `pipeline::shown_and_hidden_is_everything`,
`report::reports_ignore_the_order`, `cli::markup::the_page_holds_its_own_tags_only` or
`providers::reach::a_scan_needs_to_look_nowhere_else`.

Time is a number of nanoseconds since the epoch and is handed in, as are the environment, the facts
on paths and what walks saw. Scores are ordered by the bits of a non-negative floating-point number,
which the program computes.
