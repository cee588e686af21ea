# leani_history

A verified library for durable blockchain history: immutable segment files of
raw blocks and of processor artifacts, the catalog and jobs that decide what is
kept, a public columnar dataset as a source of blocks, and deterministic
fixtures.

## Layout

- `src/history`: raw-history segments, the catalog of segments, owners,
  reservations and locators, acquisition jobs and their runs, recovery after a
  restart, and the retained history as a source.
- `src/artifacts`: processor-artifact segments, the sink that retains batches,
  bounded scans and full verification.
- `src/xatu`: object resolution, strict reading of projected columns, and the
  joins that make frames of them.
- `src/testkit`: generated corpora, scripted sources, synthetic processors and
  an in-memory reducer.
- the files beside them: block ranges and their covers, frames, byte layouts,
  text, ordering, and the calls into hashing, compression and encoding crates.
- `app`: what reads and writes: SQLite tables, files, Parquet objects and the
  asynchronous loops around the library.
- `tests`: examples on concrete values.

The library works on bytes and plain values and performs no input or output.
What each function promises stands in its `requires` and `ensures`; what holds
across functions stands in the proof functions whose names begin with `law_`.
The calls into other crates are the functions marked `external_body`, each with
a comment that says what is taken from the crate without proof.
