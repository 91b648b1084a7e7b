# fourc

The verified core of a "four corners" disk benchmark (read/write throughput,
read/write IOPS).

- `src/devices.rs` – `--device` list parsing: comma splitting, trimming, the
  Windows drive-number shorthand (`4` is `\\.\PhysicalDrive4`), refusal
  of repeated devices (ASCII case aside), of empty lists and of lists that mix raw
  devices with files; `src/device_laws.rs` proves what an accepted list is.
- `src/text.rs` – character-level specifications and helpers (white space,
  trimming, comma pieces, ASCII case folding).
- `src/metrics.rs` – benchmark counters and the bounded latency reservoir, with
  rank selection for percentiles.
- `src/engine.rs`, `src/fill.rs`, `src/plan.rs` – test setup, worker numbering,
  progress schedule, random fill, file creation and device preparation plans,
  test selection.
- `app/` – the command-line program: argument parsing, threads, timing, file and
  device I/O and the floating-point figures.
