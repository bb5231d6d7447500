# crucible

The engine of CRUCIBLE (`crux`), a host-native benchmark and deep
system-report tool, as a Verus-verified library, with the command-line
program around it.

- `src/` — the verified library. Every function states its result in its
  contract and Verus proves it:
  - `report/` — the `crux info` report: collectors' parsing (hostname, OS,
    uptime, packages, CPU facts, caches, GPUs, disks, interfaces, battery),
    formatting (colour, byte sizes, usage bars, IPv6 compression) and the
    assembled table;
  - `bench/` — suite selection and the integer parts of the suites (modular
    power, SHA-256 and LZ4 work items, the sort workload, scratch-file sizing,
    random offsets, tmpfs detection);
  - `history.rs` — dates, data directories, run ids and their time stamps;
  - `sysinfo.rs` — the benchmark's system description and machine id;
  - `upload.rs` — sharing decisions (score server, paste.rs fallback);
  - `gui.rs`, `uninstall.rs`, `affinity.rs`, `json.rs`, `text.rs`.
- `tests/` — tests of the library on concrete values.
- `app/` — the `crux` program: argument parsing, reading `/proc` and `/sys`,
  system calls, HTTP, threads, timing and the floating-point parts of the
  benchmarks and their reports.
