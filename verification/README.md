# boids

Four animated experiments and the library under them: a flock of boids, a pond
of fish, a flow field and a forest of L-system trees.

- `src/` is the library, verified with Verus: how the flock is sorted, sampled
  and resized, how the fish are outlined and triangulated, how water ripples, how
  a noise field is built and when, how trees grow and are walked, and what is
  drawn, uploaded and shown when. Geometry on real numbers enters as closures;
  the contracts speak of their answers (`src/oracle.rs`).
- `tests/` runs the library with such closures in floating point and on exact
  numbers.
- `app/` is the program around the library: the engine, the window, the
  renderer's buffers and pipelines, and the floating-point kernels.
- `extras/shaders/` holds the shaders, which the program loads as its assets.

The library trusts three calls into other crates: two to `rand`
(`src/random.rs`) and one to `bytemuck` (`src/bytes.rs`).
