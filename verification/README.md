# sootmix

The core of SootMix, an audio routing mixer for Linux on PipeWire, written
in Verus: the functions under `src/` carry contracts that Verus proves. The
exception is the shared meter levels (`AtomicMeterLevels`), whose atomics
hold values no contract can name; their functions have none.

- `src/` — the verified library: routing rules and their matching (glob,
  case-insensitive, regex through the `regex` crate), node naming and the
  plans handed to `pw-loopback`, reading `pw-dump` (its JSON parsed with
  `serde_json`), `wpctl` and `pw-metadata` output, the crash-recovery node
  list and the release description of the update check, EQ filter-chain configuration, configuration paths
  and preset names, the ring buffer between plugin streams, meter
  bookkeeping, the command-line throttle, the daemon connection loop,
  version comparison and report naming with a proven calendar conversion,
  the mixer's step function (rule editing, app assignment, daemon
  synchronisation, channel restore) and its reaction to graph events
  (node, port and link tables, output devices that are unplugged and
  plugged back in, rule-based auto-routing, repair of links the session
  manager makes for assigned apps), and the plugin chains of the channels
  with their processor and filter bookkeeping.
- `app/` — the program around it: it runs the PipeWire tools, reads and
  writes the configuration files (serde/TOML copies of the library's
  types), builds support reports, and holds what works on floating point
  (volumes, EQ gains).
- `tests/` — tests run against the compiled library.
