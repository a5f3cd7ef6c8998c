# mirage_kernel

A verified kernel for a deterministic structural runtime: per-cell change
masks and propagation frontiers over an activation grid, the emission and
streaming gates that pick cells for execution each tick, region
statistics, region and residency state machines, canonical ordering of
descriptor sequences, canonical byte encodings of runtime frames, replay
buffers, and world snapshots with their exact equivalence checks.

## Layout

- `src/` — the library, written in Verus.  Every public function states
  its result in `ensures`; the laws that relate several functions are
  public proof functions (`lemma_*`).  Single-precision values are held as
  their IEEE-754 bit patterns and compared the way `f32` compares them.
- `tests/` — tests of the library on concrete values.
- `app/` — the parts that do floating-point arithmetic (the activation
  solver, smoothing and decay passes, accumulators), adapters that hand
  field probabilities to the library's gates, serde copies of the data
  types, and profiling output.

The library calls `num_cpus` to size the host's core count; `serde` and
`glam` are used by `app/` only.
