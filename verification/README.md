# bbt — Better Basic Tools

Read-only Linux observations (`fs`, `disk`, `host`, `proc`, `net`, `service`)
for humans, scripts and agents, as a library whose logic is verified with Verus,
and the `bbt` program around it.

## Layout

- `src/` — the verified library.
  - `cli` — the command-line grammar, from raw arguments to a command or a refusal.
  - `disk`, `fs_tree`, `visits` — the `disk usage` and `fs tree` walks: state
    machines that ask for directory listings and account every visit (hard-linked
    content and revisited directories counted once).
  - `fs`, `fs_records` — `fs inspect` and `fs list` records from `lstat` results.
  - `mounts`, `pressure`, `host`, `proc`, `net`, `service` — parsers of procfs,
    mount tables, `os-release`, `systemctl show` output, and the reports built
    from them.
  - `agent`, `output` — agent reports and the structured-output envelope.
  - `human` — the human-readable form of each report, line by line.
  - `text`, `units`, `order`, `entry` — strings, number and byte formatting,
    quoting and escaping, ordering and sorting, entry records.
- `app/` — the program: reads the system (files, procfs, `statvfs`, `uname`,
  passwd, `systemctl`), hands what it read to the library, and prints JSON, YAML,
  agent or human output. Reports made of floating-point values (filesystem
  percentages, pressure averages, host uptime and load) are built there.
- `tests/` — tests of the library on concrete values.
