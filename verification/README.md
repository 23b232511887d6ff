# fin_stream

Bars from ticks, statistics over bars, and a simulated limit order book, written
in Rust and verified with Verus.

- `src/` is the library. Its public functions state what they return, and Verus
  proves it. Numbers are decimals of up to 28 places: `src/decimal.rs` says how
  sums, products and quotients round and with how many places they are written,
  and calls `rust_decimal` for them. Of quotients it leaves two things open: the
  number of places, and where one midway between two decimals goes if the divisor
  is written with a mantissa of more than 64 bits. Deviations, correlations,
  slopes and the like are worked out from exact sums, to 28 digits wherever the
  decimal point stands.
- `src/*_laws.rs` and `src/bars/laws.rs` prove what relates several functions:
  that a written timeframe is read back, that the bars an aggregator hands out
  and the bar in progress hold the quantity of every tick it accepted, that
  matching orders neither makes nor loses quantity, that a book is never crossed
  by orders at prices on its grid, that the mean shares of wicks and body add up
  to one.
- `tests/` runs the library.
- `app/` is ordinary Rust around it: records that can be serialised, results in
  floating point, entropies, and an order book with floating-point prices.

An aggregator refuses a tick that takes a number out of the range of a decimal,
and is left as it was. Elsewhere preconditions rule such arithmetic out.
