# wield

The core of Wield, a Linux utility hub: a command palette and tray that
front screen-capture tools and file converters, built on the XDG desktop
portals.

`src/` is a library verified with Verus. It holds the tool descriptor model
and its validation, argument validation and conditional visibility, template
rendering of command lines and output paths, the tool registry with its fuzzy
search, the decisions of the execution pipeline (preflight, batch and split
runs, the wait around a running command with its time limit, cancellation
and progress, what each command result means), the command-line surface (help,
parsing, printing outcomes, what an invocation does), the portal and native
tools' decisions, the tray menu, and JSON argument coercion. Each public
function states its result exactly in its contract; the `law_*` proof
functions state the properties that span several calls.

`app/` is ordinary Rust around the library: spawning commands, D-Bus and
portal calls, logging, the desktop shell's state, and the JSON forms of the
library's types.

`tests/` runs the library on concrete values.
