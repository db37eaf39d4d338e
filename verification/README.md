# bigbirdeval

An evaluation engine for budget-depletion attacks on a private data service
for ad attribution. Devices hold differential-privacy budget filters;
attackers hijack popular sites and inject impressions and conversions from
sybil sites to drain them. The engine replays a chronological workload of
impressions and conversions through the attacks and the devices, and logs the
aggregated reports.

## Layout

- `src/` — the library, verified with Verus:
  - `attacks/` — the random (B) and omniscient (C) attackers, the shared
    targeting scaffold, and the laws every attack output obeys;
  - `dataset.rs`, `workload.rs`, `merge_laws.rs` — the action stream:
    filtering to active queriers, id checks, popularity ranks, the
    chronological merge and its laws;
  - `runtime.rs` — longest-processing-time balancing of devices over worker
    threads, partitioning of the stream, the garbage-collection cursor, and
    the deterministic ordering of reports;
  - `reports.rs`, `logs.rs`, `querier.rs`, `stats.rs` — report batching,
    attribution of dropped reports, querier parameters and per-device sybil
    statistics;
  - `progress.rs`, `display.rs` — shared progress counters and the display's
    decisions;
  - `rng.rs`, `sorting.rs`, `text.rs` — the calls into `rand`, `rustc-hash`
    and the standard library, each behind a stated contract.
- `tests/` — tests of the library on concrete values.
- `app/` — the program around the library: command line, parquet and JSON
  loading, the devices (pdslib), floating-point budgets and noise, threads,
  log files and the terminal display.
