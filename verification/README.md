# ksa64_host

Host-side tooling logic for the KSA64 rocket mission simulator, written in
Verus: every function in `src/` carries a contract that Verus proves.

## Layout

- `src/` — the verified library.
  - `le`, `fnv`, `crc` — little-endian layouts, FNV-1a hashing, and the
    CRC-32 of `crc32fast` behind one trusted wrapper.
  - `session` — the KMR6 session recording format: update records, framing,
    and reading back what was written.
  - `archive`, `runs`, `plot`, `export` — finalist archives, campaign run
    archives and candidate lists, sparse trajectory plots, and export volumes.
  - `telemetry` — the semantic checks on decoded telemetry streams and the
    capture cadence.
  - `link`, `pace`, `console`, `mission` — the host/flight link protocol,
    run pacing, the console's key handling, and the mission session's
    lifecycle and operator uplink ledger, each as a state machine.
  - `disposition`, `study`, `campaign`, `decimal`, `compiler` — mission
    dispositions, design studies, campaign aggregation and worker sharing,
    exact decimal quantisation, and the vertical-flight source checks.
- `tests/` — tests of the library on concrete values.
- `app/` — the file, thread and terminal plumbing around the library, and
  the JSON reading of compiler sources.

Record headers, seals and the simulator's own record contents belong to the
simulator's core libraries; the functions here take their lengths as
parameters, take what the record parsers read as facts, and leave the
header's kind, identity and seal to them.
