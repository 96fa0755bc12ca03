# portus

The verified core of Portus, a menu-bar monitor for listening ports and the
dev tasks started from it.

- `src/` is the library, checked by Verus: normalization of listening
  sockets into stable port rows, the tree-kill state machine, the registry
  of started tasks and their lifecycle, the projects file's data and task
  suggestions, the `.env` overlay, terminal output rendered as inert HTML in
  a bounded batcher, Docker snapshots, the poll cadence and the popover's
  decisions. Each module states its contracts and laws as `ensures` and
  public proof functions.
- `tests/` runs the library on concrete values.
- `app/` is the unverified shell around it: the `listeners`, `sysinfo`,
  `bollard` and `libc` calls, spawning processes, file I/O, and the poll
  loop on `tokio`.
