# lane

Copy-on-write git worktrees ("lanes"), with the decisions the tool makes
proved by Verus.

- `src/` is the verified library: the command-line grammar (`args`, over
  `pico_args` through the trusted items in `flags`), the help text, path
  arithmetic (`paths`), what a lane is and whether its work has landed
  (`worktree`), the `-g` rows and their cache rules (`global`), the `-i`
  report (`info`), the listing and the `-d`/`--prune` reports (`cli`), and the
  registry file (`registry`). Each function takes what git or the filesystem
  printed as plain values and returns what to print or do, with a contract
  over spec functions; the laws the tool promises are public proof functions
  beside the code they speak of.
- `app/` is the `lane` program: it runs git, reads and writes files, spawns
  threads, and hands the library plain values.
- `tests/` drives the library on concrete values.
