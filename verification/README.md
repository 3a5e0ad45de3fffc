# dpdk-telemetry

Reading and interpreting DPDK application telemetry, with the logic proved
in Verus.

- `src/` — the verified library:
  - `rates` — counter deltas across a 64-bit wrap, per-port deltas, and the
    per-queue counter updates carried by extended statistics (queue names
    parsed as `usize::from_str` does);
  - `history` — a fixed-capacity ring buffer that keeps the newest values;
  - `protocol` — reading `/ethdev/list`, `/ethdev/xstats` and
    `/mempool/list` responses from their text (the JSON object read by
    `serde_json`), and `/ethdev/info`, `/ethdev/stats` and `/mempool/info`
    responses from their records;
  - `model` — port and mempool data;
  - `alerts` — which built-in alerts a port or a mempool raises;
  - `discovery` — recognizing telemetry sockets by name, keeping one path
    per socket and sorting paths by their components as `std::path` does;
  - `poll` — the poller's decisions: a state machine from event to next
    state and action (connect, discover, poll when due, pause, reconnect,
    stop), which ports to keep after rediscovery, and what a stats sample
    does to a port's counters (seed the baseline, or advance);
  - `ui` — the dashboard's decisions: key handling, port selection, panel
    sizes, labels and xstats ordering;
  - `format`, `text` — thousands separators and character-level helpers.
- `app/` — the `dpdk-top` program around it: the Unix socket, reading
  `/ethdev/info`, `/ethdev/stats` and `/mempool/info` records with serde,
  socket discovery on disk, floating-point rates and the terminal UI.
- `tests/` — tests of the library.
