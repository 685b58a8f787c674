# dracon_system

Decision logic of a local disk and process guard, verified with Verus.

- `src/` — the library. Every function carries a contract that Verus
  proves: byte-size formatting, artifact-kind lists, path components and
  the protected-path rules, managed-link states and the actions that
  repair them, fresh backup and quarantine names, `df`/`ps` parsing, the
  quarantine listing and expiry, relocation plans, the ordered checks
  that come before a relocation, quarantine move or restore, and the
  transfer state machine that only removes a source after its copy was
  checked.
- `app/` — the command-line front end: filesystem walks and copies,
  `df`/`ps`/`git` invocations, JSON and table output. It gathers facts,
  asks the library what to do, and does it.
- `tests/` — tests of the library on concrete values.
