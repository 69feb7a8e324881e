# trading_maid

A backtesting engine for crypto futures whose core is verified with Verus: k-line
data and resampling, calendar periods, technical indicators, and a simulated
exchange with order matching, slippage, leverage, isolated margin and liquidation.

## Layout

- `src/` — the verified library.
  - `decimal.rs`: fixed-point decimals; arithmetic is done by `rust_decimal`.
  - `level.rs`, `time.rs`: k-line periods and their calendar boundaries.
  - `data.rs`: k-lines, data sources, the replay timeline, bar buffers.
  - `series.rs`, `indicator.rs`: series indexed from the newest bar, indicators.
  - `order.rs`, `margin.rs`, `book.rs`, `ids.rs`: orders, margin formulas, order books, order ids.
  - `exchange.rs`, `account.rs`, `matching.rs`: the simulated exchange: placing and
    cancelling orders, leverage and margin, and the matching engine.
  - `util.rs`, `engine.rs`, `download.rs`: resampling and summaries, the decisions of
    the strategy loop, the rules of the k-line archive.
- `tests/` — tests of the library.
- `app/` — the runtime around it: files, downloads, the asynchronous exchange
  interface, the strategy loop and the browser view.
