# rusty_shell

A small Unix shell. The library under `src/` holds what the shell decides,
with contracts proved by Verus; `app/` is the program around it (terminal,
files, processes).

- `parser.rs`: the command-line grammar (words, quoting, escaping,
  redirections, pipelines, a trailing `&`), its state-machine definition
  `parse`, and laws about it.
- `expansion.rs`: `$NAME` and `${NAME}` parameter expansion.
- `variables.rs`: shell variables and the `declare` builtin.
- `history.rs`: the session history, `history` listings and history files.
- `jobs.rs`: background-job numbering, statuses, `jobs` and reaping.
- `command.rs`: builtins, the requests they make of the operating system,
  and the plan for a command line (builtin, external program, pipeline).
- `shell.rs`: the loop's decisions around each prompt.
- `repl.rs`: command-name completion and submitted lines.
- `text.rs`: character and number formatting helpers.

The tests under `tests/` drive the library with an in-memory stand-in for
the operating system.
