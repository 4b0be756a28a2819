# auditguard

A Linux security auditing tool whose decision logic is a library verified
with Verus.

- `src/` — the verified library:
  - `audit.rs`: the findings, the health score, the kernel parameter checks,
    the socket-table reader, the set-ID and world-writable file rules and the
    hardware status;
  - `harden.rs`: what the hardening offers to change and the sysctl
    configuration it writes;
  - `monitor.rs`: process, USB and file events and their log lines;
  - `ui.rs`: the terminal interface's state, keys and text;
  - `text.rs`, `path.rs`: characters, splitting, trimming, number parsing and
    rendering, path components.
- `app/` — the program: command line, reading the system, running commands,
  background monitors, drawing with ratatui, the JSON report.
- `tests/` — tests of the library on concrete values.
