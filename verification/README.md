# ProcessObserver

ProcessObserver watches the processes of one executable: at a fixed interval it measures processor
load, memory, input and output, and network traffic, keeps the measurements of each session, and
exports them as CSV or JSON.

- `src/` is the library, verified with Verus. It holds the sessions and what is retained of their
  measurements (`session`, `app_state`), the monitoring loop as a machine that says what to do next
  and takes the outcome (`monitor::sampling`), the evaluation of what the operating system answers
  (`monitor::metrics`, `monitor::network`, `elevation`), and the requests of the frontend
  (`commands`). `text`, `utf16`, `command_line`, `time` and `table` are what these are built on.
- `app/` is the desktop application for Windows: it calls the operating system, runs the loop, and
  serves the frontend. What is computed in floating point stands there too. The library takes such
  numbers as counts of hundredths.
- `tests/` runs the library on concrete values.

## What is taken on trust

The library calls `chrono` for the clock and for the text of points in time, `csv` for the table of
an export, and a few functions of the standard library that have no specification of their own. Each
stands behind a declaration in `time`, `table`, `text`, `utf16` or `commands` whose comment says what
is claimed of it.

## Times and numbers

Points in time are seconds and nanoseconds since 1970, with the distance of a local clock from
universal time where there is one. Intervals are measured in nanoseconds on a clock that never goes
back. Functions whose name ends in `_at` take the time as an argument; those without that ending
read the clock.
