# cargo_test

Runs the tests and the benchmarks of a compiled workspace, with the decisions
proved correct by Verus.

- `src/` is the verified library: what is run, with which arguments, in which
  order and how much at a time, what is shown, and what is told of failures.
- `app/` compiles, starts processes and threads and writes to the terminal, as
  the library says.
- `tests/` runs the library on examples.

| Module | What it decides |
| --- | --- |
| `run` | the steps of a test run and of a benchmark run, and what they come to |
| `compile` | the order of the test executables |
| `stage`, `unit_tests`, `doc_tests` | the batches that are made of tests and doctests |
| `batch` | running batches in turn, and telling which failed |
| `jobs` | when the next of several batches starts |
| `worker` | what a running batch sends |
| `printer`, `printer_laws` | showing interleaved output in order |
| `model`, `lookup`, `shell` | the data that passes through |
| `process`, `path` | the calls that are trusted: processes and paths |
