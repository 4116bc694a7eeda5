# ticklog

A low-latency logger: every producer thread writes compact binary records
into its own ring of bytes, and a single drain thread decodes them into
text lines for a sink. Format strings, file names and line numbers never
travel in the records; a record names its call site by a key.

## Layout

- `src/` — the verified core, checked by Verus.
  - `record`, `wire`, `level`: the record format and its little-endian
    fields.
  - `ring`: the single-producer, single-consumer byte ring with slot-aligned
    frames, end-of-buffer fillers, and the backpressure decision.
  - `encode`, `dispatch`: turning a log call into a record and writing it.
  - `cursor`, `decode`, `format`, `timestamp`, `text`: reading a record back
    and rendering its line under a `{field:spec}` pattern, with ISO 8601
    timestamps and `std::fmt`-style value formatting.
  - `drain`: the drain's passes over a ring, the reconciliation of its ring
    list with the registry, and its polling schedule.
  - `builder`, `thread_buf`, `segments`, `backoff`, `hotpath`, `affinity`:
    configuration checks, per-thread identity, segment handoff decisions,
    waiting, profiling counters and core pinning.
  - `ringbuffer_backend`, `ringbuf_backend`, `triple_buffer_backend`,
    `rtrb_backend`: the same record channel over four external queue
    crates, each behind trusted wrappers whose contracts state the queue's
    contents.
- `tests/` — tests of the core on concrete values.
- `app/` — the runtime around the core: global state, threads, the sink,
  float rendering, and the logging macros.

Each `law_*` proof function in `src/` states a property that relates
several operations, such as a record written into a drained ring being the
one record the next drain pass delivers.
