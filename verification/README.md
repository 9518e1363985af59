# aikv

A Redis-protocol key-value server library in Verus: the command handlers
(strings, keys, hashes, lists, sets, databases, server commands), the script
engine's cache, key locks and write buffer, the cluster metadata and command
planner, and the observability helpers. Each handler states what it answers
and how it changes the keyspace over mathematical models, and Verus proves it.

- `src/` is the verified library; `src/command/` holds the command handlers,
  `src/cluster/` the cluster layer, `src/observability/` logging, metrics and
  tracing.
- `tests/` runs the library on concrete inputs.
- `app/` is the program around it: command line, configuration file, logging
  set-up, and the threads that wait for key locks.
