# tmtidy

Keeps Time Machine backups lean: scans project roots for build and cache
directories (`target`, `node_modules`, `.venv`, …), excludes them from Time
Machine with the sticky exclusion xattr, and can move long-dormant excluded
dirs to the Trash.

## Layout

- `src/` — the verified library (Verus):
  - `text` — characters of strings, Unicode whitespace trimming, substring
    search, decimal rendering;
  - `paths` — Unix paths as strings: joining, components, prefix and
    equality by component, XDG base-directory resolution;
  - `config`, `defaults` — the configuration model, its defaults, `~`
    expansion and the merge of user rules with the baked-in ones;
  - `rules` — matching a directory against the rules;
  - `walker` — which entries the walk keeps;
  - `decay` — choosing decay candidates (all five conditions), ages, sizes;
  - `stats`, `cli` — counters and the decisions the commands take;
  - `schedule` — `--every` parsing and the LaunchAgent plist;
  - `logging` — log locations, capping, reading back the last record.
- `app/` — the command: argument parsing, filesystem, xattrs, Trash,
  `launchctl`, YAML and JSON.
- `tests/` — tests of the library.
