# astra

Astra manages local development workspaces and projects: it keeps a table of
workspaces, scaffolds projects, launches a terminal layout for a workspace,
runs a controlled verification check against a Git source state, keeps a
store of project knowledge with operator responses, and derives
deterministic project intelligence from explicit input.

## Layout

- `src/` is the library, verified with Verus. Each public function states in
  its contract what it returns or changes; laws that relate several
  functions are public proof functions (their names begin with `law_`).
  - `intelligence/`: the analyzer (graph, rules, report) and the resolver
    that applies operator responses to its insights.
  - `knowledge/`: claims, canonical JSON and identifiers, operator responses
    and their ledger, the in-memory store.
  - `execution/`: fingerprints, reading Git's output, planning and
    revalidating a check, its verdict.
  - `terminal/`: the launch plan, the WezTerm invocations, the dry run and
    the launch driver's state machine.
  - `dashboard/`, `system/`, `workspaces.rs`, `projects.rs`, `cli.rs`: the
    dashboard's state and formatting, service status, the workspace table,
    project names and scaffolding text, command-line parsing.
- `app/` is the program around it: command-line entry, files on disk
  (configuration, claims, relationships, operator ledgers), processes, the
  terminal user interface. Verus does not read it.
- `tests/` exercises the library with the real outside crates linked.
