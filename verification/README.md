# rchronos

A Windows time-synchronisation service whose core is verified with Verus.

- `src/` is the verified library:
  - `config`: protocols, synchronisation modes, the host table (kept in name
    order, like a `BTreeMap<String, _>`) and the application settings with
    their defaults.
  - `order`: the byte-wise order of host names.
  - `time`: UTC instants in chrono's range, offsets, millisecond distances
    and the proleptic Gregorian calendar date of a day.
  - `ntp`: the 48-byte NTP header codec and NTP/Unix timestamp conversion.
  - `sync`: host selection, request formation, HTTP `Date` parsing, the
    adjustment decision and the state of one synchronisation run.
  - `runtime`: the state the service's actor keeps (log, status, failure
    counts, whether a run is in progress) and how each message changes it.
  - `winsys`: event log entries, the `W32Time` policy value and its UTF-16
    registry encoding, and the `SYSTEMTIME` fields of an instant.
  - `dashboard`, `text`, `service`: labels, counts, host lines and the log
    panel for the dashboard,
    decimal and duration rendering, and the service's errors.
- `app/` is the executable: TOML configuration files, the tokio actor, the
  axum API, UDP/HTTP time requests, and the Windows service, registry, clock
  and event log calls.
- `tests/` exercise the library on concrete values.
