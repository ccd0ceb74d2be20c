# logs

Process-level `tracing` output for Breeze services, with its decisions verified
by Verus.

The default configuration writes to `./logs`, and nothing to stdout or stderr:

- `TRACE`, `DEBUG` and `INFO` events go to `info.log`.
- `WARN` events go to `warn.log`, `ERROR` events to `error.log`.
- The targets `breeze.api`, `breeze.slow` and `breeze.fallback` have files of their
  own.

Every line starts with a timestamp in UTC+8 without a zone:

```text
2026-08-30 15:10:17 [INFO] ListStorage get new version. listId:6296, version:1684410575955
```

## Layout

- `src/` is the verified library. It computes and decides on plain values.
  - `config`, `filter`, `init`: the configuration, its faults, and the filter.
  - `format`, `calendar`, `text`, `duration`: labels, destinations, dates and numbers.
  - `arena`, `line`, `hint`, `event`: lines in segments of an arena, cut to a limit.
  - `rotation`: periods, archive names and schedules.
  - `batch`: what a batch puts into each file, in groups for vectored writes.
  - `worker`, `guard`: the worker as a state machine, and what its owner is told.
- `app/` performs what the library decides: files, threads, clocks, the queue, and
  the global subscriber.
- `tests/` runs the library.

`init_with_metrics` registers the `type=LOG,name=queue_dropped` profile metric, which
counts the lines that a full queue rejected; `init` does not.

## What is proved

- Every line that comes out of the queue is written once and in order; a flush is
  answered only behind the lines before it.
- A line is the text of its event, or that text cut to the limit and marked.
- Each file receives exactly the lines for it, however batches and writes are cut,
  and no vectored write carries more than 1024 slices.
- Segments of a line double in size up to 2 KiB, and a full segment is never replaced.
- Every run over one queue that ends cleanly puts the same bytes into each file.
- Deadlines fall on the boundaries of periods, archives of different periods have
  different suffixes, and no archive takes a name that is in use.

What the proofs rely on of other crates and of the standard library stands in
`assume_specification` items and in functions marked `external_body`, each with a
comment that says what is relied on.
