# px

Tiny Windows helpers (`del`, `un`, `cp`, `apps`, `ports`, `kill`, `update`, `destroy`).

- `src/` is the verified library (Verus): splitting uninstall command lines, rewriting MSI
  repair commands, choosing registry uninstall entries, the `un` state machine, the `apps`
  and `ports` tables, byte counts for people, and the texts and commands of `update` and
  `destroy`. Each public function states its result in its contract; the laws (orderings,
  uniqueness, round trips, progress of `un`) are proof functions beside the code.
- Where a hash set or map would serve (names already seen in `installed_apps`, sockets
  already seen and the pid-to-name table of `ports`), the library keeps vectors searched by
  verified code, and it sorts with verified insertion sorts; the contracts state the
  results (distinct names, ports ordered and unique, stable among equal ports).
- `app/` is the program around it: command line, files, registry, processes, network,
  clipboard.
- `tests/` runs the library on concrete inputs, partly against the standard library.
