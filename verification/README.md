# cache_layer_optimizer

Cache optimisation strategies with machine-checked contracts: ranking of hot
keys, prediction, cache warming, dynamic tier sizing and coherence protocols.

Layout:

- `src/` — the library, written and proved with Verus.
  - `ranking.rs`: stable ranking of keys by priority (merge sort of
    positions), its specification and the laws it satisfies.
  - `tiering.rs`: tier configurations, growing and shrinking with exact
    rational factors, sizing strategies and the tier manager.
  - `predictive.rs`: access patterns, frequency/recency/learned models, the
    predictor.
  - `warming.rs`: warming strategies and the warmer.
  - `coherence.rs`: write-through, write-back and write-around protocols.
  - `optimizer.rs`: the optimization cycle.
  - `ratio.rs`, `metrics.rs`, `clock.rs`, `error.rs`: supporting types and
    the clock readings.
- `app/` — ordinary Rust around the library: floating-point scores and rates,
  `chrono`/`Duration` conversions, serde-enabled copies of the data types, an
  error type with messages, and async entry points.
- `tests/` — tests of the library.

The library holds no floating-point values: scale factors and rates are exact
ratios, times are nanoseconds, and keys are ranked by integer priorities
(`app::scoring::priority_key` maps a float score to one that orders alike).
