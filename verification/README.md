# battery

Accounting for a recording-first battery investigation tool on Apple Silicon
macOS, written in Rust and verified with Verus.

`src/` is the library. Every function in it has a contract, and the promises of
the tool as a whole are proof functions beside the code they speak of.

- `analysis`, `ledger`, `accounting`, `report`: what a recording comes to. Battery
  energy is the trapezoid integral over observed intervals; gaps, external power
  and missing readings add nothing. CPU energy is summed per application. A marked
  change is compared over a minute before it and a minute after it has settled.
- `record`, `gzip`, `bytes`, `names`: events, and how they are framed in a file so
  that completed events survive an interrupted writer.
- `samplers`, `sampler`, `types`, `host`: what raw readings of the system come to.
- `vm`, `evidence`, `docker`, `percent`, `inspection`: which virtual machine a process runs,
  and what a probe of it found.
- `ui`, `screen`, `dashboard`: what a key does, and what the terminal shows.
- `session`, `command`: what is due at an instant, and how long a program may run.
- `text`, `num`, `order`: texts, numbers and rankings.

Continuous quantities are integers: millionths of the unit in a field's name,
nanoseconds for intervals, attojoules for energy totals. Totals stop at the
largest value they can hold.

`app/` is the program around the library: arguments, files, the terminal, system
calls, and the JSON form of events. `tests/` runs the library.
