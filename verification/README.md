# oxide_cli

The `oxide` command-line tool scaffolds JavaScript and TypeScript projects
from remote templates and extends them with addons. This crate holds its
logic as a library verified with Verus, and a thin program around it.

- `src/` — the verified library. Each module states its behaviour in
  `requires`/`ensures` contracts over mathematical models (`Seq`, views of the
  data types) and proves it; laws that relate several operations are public
  proof functions named `law_*`.
  - `version`: parsing and comparing release versions, release asset names
    and URLs, the upgrade notice, the freshness of the cached version check.
  - `addon_cache`, `template_cache`, `lock`: the index files and the lock
    file as sequences of records keyed by id or name (`keyed`).
  - `template_install`, `addon_install`: whether an install downloads,
    updates or does nothing, and what is reported.
  - `detect`: which addon variant fits a project, from what was read of its
    files (`FileRead`): the text is parsed in the rule's format (JSON, TOML,
    YAML) into a `DocNode` and walked along the rule's key path.
  - `steps`: the text written by append and inject steps, the decisions
    of copy, create, rename and move steps, the rollbacks they record and
    how a failed inject step is undone.
  - `archive`, `prune`, `paths`: paths as text — archive entries, the
    directories tidied after a removal, the data directory layout.
  - `completions`, `shell_install`, `managed_block`: completion candidates,
    the snippets written into shell configuration files (a managed block
    that a second update leaves as it is) and where the completion script
    of each shell goes.
  - `errors`: the CLI's typed errors and the lines of an error report.
  - `github`, `cli`: walking a repository listing; the parsed commands.
- `app/` — the program: argument parsing, file and network I/O and
  printing, calling the library for every decision.
- `tests/` — the test suite, run against the library.
