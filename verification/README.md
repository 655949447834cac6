# scan_plan

Plans a scan of a code stream for a set of needles. A scan has two stages: a
matcher marks the codes that a cover names, and a resolver turns the marks into
rows. The planner picks the cheapest matcher that holds the cover, the cheaper
resolver for the hits expected, and whether the matcher should test its lanes
before packing them; the dispatch turns that plan into a compiled kernel pair.

- `src/cover.rs`: what a scan looks for.
- `src/policy/`: the planner. `matcher.rs` is stage one, `resolver.rs` stage
  two, `scan.rs` the cost of a whole scan.
- `src/dispatch.rs`: a plan as the kernel pair that the stages run.
- `src/fixed.rs`: the fixed-point arithmetic under the planner.
- `src/laws/`: what holds of all of it. `readings.rs` is what a law may ask of
  the caller's functions.
- `app/`: floating-point readings, the build, and kernels as types.

A kernel costs whole ticks per code, 100,000 to the nanosecond, because every
fitted constant is a decimal of at most five places. The cost of a stage or a
scan is a 256-bit number of parts of a tick, 2^106 to the tick, so that nothing
is rounded. Shares, logarithms and counts with a
fraction are in parts, 2^53 to the whole, which is what a double resolves just
below one. The planner asks its caller for two functions of a ratio, `exp(-x)`
and `log2(1 + x)`, and its contracts say what it asks them and what it makes of
each answer. An answer above one where a share is meant is read as one.
