# usage_core

Usage statistics for the transcript files of a coding assistant: what was used, what it would
cost at list price, and how much of the account limits is left.

- `src/` is the library, verified with Verus. Every public function states what it returns or,
  where the time zone of the machine decides, what holds in every zone; the laws that relate
  several functions are public proof functions beside them.
- `tests/` runs the library on concrete values.
- `app/` is ordinary Rust around the library: the status-line hook, the command line tool and
  the panel, with files, network, threads, windows and floating-point amounts of money.

What the library takes from other crates (`chrono`, `serde_json`) stands behind a few functions
in `src/time.rs`, `src/json.rs` and `src/parse.rs`, and what it takes from std beyond Verus's own
specifications in `src/text.rs`, each with a comment on what it relies on.
