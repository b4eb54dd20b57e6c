# azdo

A small client for Azure DevOps Server 2020: show a work item as text or in
an interactive terminal viewer, read and post comments, change states, list
one's open items, queue builds, and run Rhai workflows (such as the daily
wiki page) over a capability-split backend with a dry-run mode.

## Layout

- `src/` — the library, verified with Verus. It holds everything the tool
  decides or computes: configuration checks, URLs and request parameters,
  rendering of work items, comments and tables, HTTP status handling, the
  calendar arithmetic and page paths of the daily workflow, the viewer's
  state machine, the dry-run backend and the command reports. Each public
  function states its result in its `ensures`; the `law_*` proof functions
  state properties that span calls (round trips, orderings, what one key
  undoes of another).
- `app/` — the program around it: argument parsing, configuration file and
  environment, HTTP transport, terminal drawing, the browser, and the Rhai
  engine. It hands the library plain values and prints what it gets back.
- `tests/` — tests of the library on concrete values.

Calls into other crates from the library (base64, html2text, serde_json,
and the HTTP header check) go through small wrappers whose contracts say
what those crates' sources and documentation promise.
