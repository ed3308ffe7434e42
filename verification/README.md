# moon_ui_gpui

The decision logic of a trading terminal's desktop interface, written in Verus and
proved against its contracts.

- `src/` is the verified library: which markets the charts keep open and how their
  reference counts move (`refs`, `markets`, `chart_refs`), the detects ribbon
  (`detects`), the orders table (`orders`), the log panel (`log_view`), the report
  table (`report`), chart mouse buttons and trading gestures (`input`), the built-in
  diagnostic scenario (`firetest`), group windows and trading targets (`shell`),
  settings edits (`settings`), assets texts (`assets`), detached windows
  (`detached`), toolbar metrics (`toolbar`), icons (`icons`), redraw throttles
  (`gate`), diagnostics counters (`diag`), and shared text helpers (`text`).
- `tests/` runs the library on concrete values.
- `app/` is the program around it: command line, environment, files, and the
  floating-point judgement of a scenario run.

Verify with `verus` on `src/lib.rs`; the contracts are stated over spec functions
next to each executable function, and the laws of each module are public proof
functions named `law_*`.
