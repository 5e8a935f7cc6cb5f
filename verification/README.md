# fire

A configuration-first command runner. Commands live in `fire.yml` and
`*.fire.yml` files next to a project; `fire <path>` resolves the path through
namespaces, groups and nested commands, renders the command templates with the
positional arguments, and runs them directly, through a runner, or through a
language runtime.

## Layout

- `src/` — the library, written in Verus and proved against its contracts:
  - `config` — the configuration model, file scopes, namespace inheritance,
    includes and the loading order of files;
  - `resolve` — resolution of a command path (deepest path, local before
    global) and the detection of duplicate terminal commands;
  - `render` — placeholders, macros, computed tokens, shell and JSON quoting;
  - `execute`, `flow` — the settings of a command chain, the unused-argument
    policy, `compute` and `eval`, and the machines that drive an execution;
  - `runner` — runner selection, TTY flags for piped runners, runner scripts;
  - `completion`, `help`, `words` — shell completion, help screens, and the
    splitting of command lines;
  - `cli`, `registry`, `env`, `mcp` — management commands, the registry of
    installed directories, `.env` files, and the command tree for assistants;
  - `text`, `strmap`, `paths` — text, ordered maps keyed by text, Unix paths.
- `app/` — the program around the library: arguments and environment, the
  file system, processes and runtime sessions, YAML and JSON, and the MCP
  server.
- `tests/` — tests of the library's public functions.
