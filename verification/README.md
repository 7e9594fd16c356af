# xray-core

The data-driven core of the X-Ray microstructure explorer: a validated spec is
folded over a recorded dataset (trades, order-book snapshots and diffs,
funding, open interest, liquidations, candles) into four panels — footprint,
order-book heatmap, liquidation map and funding/OI divergence.

## Layout

- `src/` — the library, verified with Verus. Prices and quantities travel as
  the bit patterns of doubles; the library decides windowing, stable sorting,
  bucketing, grouping, order-book reconstruction, spec validation, the JSON
  command protocol (from the command text to the reply text) and the
  command-line grammar, each against a contract.
  `src/laws.rs` states the properties that span several operations.
- `tests/` — tests of the library on concrete values.
- `app/` — the `xray` program: file and stdin I/O, decoding specs, configs
  and datasets from JSON/TOML into the library's types, the
  floating-point arithmetic of the panels, and text rendering.
