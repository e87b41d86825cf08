# eclair_routing

Verified core of an approximate routing engine: travel distances and times are
estimated from great-circle distances, a distance-dependent detour factor, a
speed model, and an optional table of per-H3-cell speed factors.

- `src/` — the library, verified with Verus:
  - `matrix`: square and origins-by-destinations distance/time matrices,
    filled from a caller-supplied per-pair estimator (symmetric with a fixed
    diagonal for the square case; row-major for the other).
  - `h3`: validated H3 cells and the grid path between two cells (h3o does
    the H3 computation).
  - `factors`: the speed-factor table built from the two configuration
    columns, the lookup of factors along a path, and the choice of the
    configuration file format.
- `app/` — the floating-point model (haversine distance, detour factor, speed
  curve, harmonic mean of factors), reading the configuration with polars, and
  the Python bindings (pyo3/numpy).
- `tests/` — tests of the library.
