# collision

The decision logic of the GJK (Gilbert-Johnson-Keerthi) collision detection algorithm,
verified with Verus.

GJK works on floating point geometry: support points of the Minkowski difference of two
convex primitives, dot products, simplex reduction. That arithmetic stays with the
caller. What the library holds, with contracts proved by Verus, is everything the
algorithm decides:

- `src/intersect.rs`, `src/distance.rs`, `src/time_of_impact.rs`: the runs of the
  intersection test, the distance computation and the time-of-impact test, each a state
  machine that asks the caller for the next geometric step, takes the outcome and decides
  whether to go on, hit or miss, within `MAX_ITERATIONS` rounds.
- `src/strategy.rs`: what an intersection test returns for each collision strategy.
- `src/pair_scan.rs`: the scan over all primitive pairs of two complex shapes, and the
  rules that pick the shapes' result (first contact, deepest contact, earliest time of
  impact, smallest distance).
- `src/float_order.rs`: the order of `f64` values read from their bit patterns, which the
  scan compares with.
- `src/scan_laws.rs`: what a scan's answer means, and why stopping early is sound.

`app/lib.rs` runs the geometry on `cgmath` types around these state machines.
