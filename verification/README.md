# patholog

Diagnostics, cleaning and shell-profile planning for path-like environment variables
(`PATH` and `MANPATH`), written in Verus: the library under `src/` states what each
operation computes in its `requires`/`ensures` contracts, and Verus proves the code
against them.

## Layout

- `src/model.rs` — entries, diagnostics, reports and the stable names of their kinds.
- `src/text.rs` — character-sequence helpers (split, join, trim, decimal rendering) with
  their mathematical models.
- `src/platform.rs`, `src/path_env.rs`, `src/normalize.rs` — platform rules, parsing of a
  variable into entries, and comparison keys.
- `src/policy.rs`, `src/clean.rs` — removal policies, cleaning and export snippets, with
  the laws of cleaning (idempotence, order, one entry per key).
- `src/doctor.rs`, `src/health.rs` — diagnostics and the health summary.
- `src/config.rs` — validation and merging of configuration policies and `--fail-on`.
- `src/apply.rs` — the managed block of a shell profile: finding, appending and
  replacing it, with the laws that a written block is found again.
- `src/human.rs`, `src/json.rs` — human-readable and JSON renderings of every report.
- `src/cli.rs` — the decisions of each command: errors, exit status and output.
- `src/fuzzing.rs`, `src/fuzz_args.rs` — read-only entry points and the command lines a
  fuzz case drives.
- `app/` — the `patholog` executable: argument parsing with clap, the process
  environment, configuration files, and the file work of `apply`.
- `tests/` — tests of the library on concrete values.

## Unsupported commands

Command resolution (`why`, `why-not`, `conflicts`, `doctor --command`) and shell-profile
scanning (`scan`) need reports that this project does not compute: the executable answers
these commands with an error ("command resolution is not supported", "shell profile
scanning is not supported"). The library still renders such reports and decides the
outcome of these commands from them (`run_why`, `run_conflicts`, `run_why_not`,
`run_scan`, and the candidates that `run_doctor` takes).
