# pyllow

Codebase intelligence for Python: unused files and imports, import cycles,
boundaries between parts of a project, and what to report of them.

- `src/` is the library, verified by Verus:
  the syntax tree and what a module imports (`parse`, `extract`, `walker`), the
  import graph with its cycles and what is reachable in it (`graph`), what
  frameworks keep alive (`plugins`), settings (`config`), findings (`issue`,
  `types`), which of them count (`selection`, `scope`, `audit`, `counts`,
  `smells`, `dupes`), and what is shown of them (`report`, `inventory`,
  `postprocess`). Every function has a contract that is proved, but for those
  that call into other crates or turn their values into the library's own: these
  are small, and what is said of them is taken on trust, as their comments say.
- `tests/` runs the library.
- `app/` is the `pyllow` command: it reads arguments, files and git, and prints.
  The analyses themselves come from `pyllow_analyzer`, a crate beside this one.

Laws that hold across functions are public proof functions, named after what
they say, such as `cycles_are_complete` or `scope_never_hides_parse_errors`.
