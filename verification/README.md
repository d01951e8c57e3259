# baraddur

A file watcher that reruns a project's check pipeline (format, lint, test …)
whenever a source file changes, and shows the results in the terminal, as
plain lines, or as NDJSON events.

## Layout

- `src/` — the library, written in Verus and verified:
  - `config/` — the configuration model, its validation rules and the search
    for `.baraddur.toml` upward from a directory and in the global location;
  - `pipeline/` — step selection by `if_changed` globs and `{files}`
    substitution, grouping into stages, the stage-by-stage run plan, and the
    input of the `on_failure` hook;
  - `watcher.rs` — event filtering (ignored paths, extensions) and batching;
  - `watch_loop.rs` — the watch loop as a state machine from event to action;
  - `loop_guard.rs` — the restart guard against feedback loops;
  - `git.rs` — parsing of NUL-separated path lists;
  - `output/` — diagnostic extraction, the state and layout of the
    interactive, plain and JSON displays, and key handling in browse mode;
  - `text.rs`, `path.rs`, `glob.rs`, `shell.rs` — strings, paths, and the
    calls into `globset` and `shell-words`.
- `app/` — the program around the library: argument parsing, file and
  process I/O, the `notify` watcher thread, the async runner, and terminal
  rendering.
- `tests/` — tests of the library.

Laws that span several functions are public proof functions whose names start
with `law_`.
