# plato-state

Room state for the PLATO nervous system.

- `src/` is the verified library (Verus): the sixteen state labels with their
  indices and names, the selection of flagged labels in label order, and
  `StateHistory`, a bounded ring buffer of timestamped states whose contents
  are proved to be the most recent `capacity` entries pushed, oldest first.
- `app/` holds the floating-point side (state vectors, thresholds, deltas,
  fusion, trend and anomaly analysis, alerts) and the serde forms of the
  library's types.
- `tests/` exercises the library.
