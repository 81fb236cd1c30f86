# NetWatch

Network traffic accounting for Linux interfaces: a daemon (`netwatchd`)
samples the kernel's byte counters into SQLite, and a terminal monitor
(`netwatch`) shows today's traffic, per-interface statistics, history and
graphs.

## Layout

- `src/` is the library, verified with Verus. It holds the logic:
  - `collector`: reading `/proc/net/dev` and sysfs counter texts into
    snapshots, filtered by the ignore patterns and sorted by name;
  - `stats`: rates from successive readings (counter resets and clock
    jumps are reported as anomalies) and human-readable amounts;
  - `time`: UTC day, month and year boundaries of the reporting ranges;
  - `config`: settings, defaults, ignore patterns and the database path;
  - `models`: database records and the decisions taken on what is read
    (which aggregate table a sum comes from, daemon status, messages);
  - `daemon`: the daemon's state between samplings;
  - `tui`, `screens`, `widgets`: the monitor's state machine and the text
    of its pages;
  - `export`: CSV and Markdown export and the range flags.
- `app/` is the program around it: terminal, SQLite statements, file
  reading, the TOML and JSON formats, and the event loops. It runs the
  daemon when started as `netwatchd`, the monitor otherwise.
- `tests/` exercises the library on concrete values.
