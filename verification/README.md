# reproducible

Reproducible accuracy and benchmark reports for Rust functions, with a
verified core.

- `src/` is the library, verified with Verus: turning CSV records into test
  cases (`parser`), counting categorical metric results and picking the
  dominant category (`stats`), laying out report tables (`render`), routing
  statistics to Criterion's artifacts (`benchmark`), describing the testing
  environment from `rustc`'s output (`env`), and the string helpers these
  need (`text`). The CSV grammar is read by the `csv` crate and the table
  text is drawn by `tabled`; their contracts are stated where they are called.
- `app/` is the outer layer: reading files and the system, evaluating the
  functions under test, the floating-point metrics and statistics, number
  formatting, and the fluent `Report`/`Row`/`Column` builders.
- `tests/` exercises the library on concrete data.
