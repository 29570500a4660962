# hftbacktest

A library for replaying market data against a simulated exchange, written in Verus. Most functions of
`src/` carry a contract, and Verus proves it. The rest are proved free of overflow and panics. The
small functions that call outside crates are the exception: their contracts are trusted.

- `data/` reads Tardis feeds exactly (no floating point), fuses depth and book ticker, orders events
  by both clocks, and reads and writes archives of market data; readers share loaded chunks.
- `depth`, `rules`, `models/` hold the order book, the tick-size schedule, and the fee, latency and
  queue models.
- `processor/` holds the local side and two exchanges: one that fills orders whole, one that fills
  them level by level.
- `order_bus`, `evs`, `snapshot`, `replay` and `recorder` hold what is under way, what happens next,
  checkpoints of a replay, calls as values, and the records.

Decimal arithmetic, CSV, gzip, zip archives and numpy headers come from outside crates. Each call stands
in a small function whose doc comment says what is claimed of it.

`tests/` runs the library. `app/` is the program around it: the command line, files, loading threads,
the Python module, and what needs floating point.
