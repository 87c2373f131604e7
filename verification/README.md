# zaz

A file-watching task runner and process manager for development environments. The
library is written in Verus: what it decides is stated in contracts and proved.
The program around it does the rest.

## Layout

- `src/config`: configuration, its validation, user preferences, byte sizes.
- `src/daemon`: the engine and what belongs to it.
  - `engine`, `engine_model`: the state machine of groups, tasks and services, and
    the model that its contracts speak of.
  - `group_run`, `service_round`, `shutdown`, `tasks`: work that goes back and forth
    between the engine and the world. The engine says what is to be done, and is
    told what came of it.
  - `dependency`, `planning`, `trigger`: which group waits for which, which groups a
    change sets off, and why.
  - `log_storage`, `log_store`, `log_model`, `sqlite`: logs in memory and on disk.
  - `api`, `requests`, `server`, `state`, `notify`, `log_layer`: what clients ask and
    are answered, and what they are shown.
- `src/process`: commands, services and their restart delays.
- `src/mcp`: what the MCP tools ask the daemon, and how its answers are reported.
- `src/xtask`: keeps the tables of the CLI reference in line with the commands.
- `src/text`, `src/strmap`, `src/graph`, `src/paths`: what the rest is built on.

Proof functions whose names begin with `law_` state what holds of several
functions together; most stand in the modules whose names end in `_laws`.

## Outside crates

The library calls `strsim` for edit distances, `globset` to check patterns, and
keeps groups in an `indexmap`. These calls, and a few into the standard library
that Verus does not specify, stand behind functions marked
`#[verifier::external_body]`. What is claimed of each is said above it.

## The program

`app/` holds the `zaz` command: arguments, files, sockets, processes, the SQLite
database and the MCP server.
