# copula-core

Copula modelling, simulation and dependence analysis, with its exact part
verified by Verus.

- `src/` is the verified library. Real values are held as IEEE-754 `f64` bit
  patterns (`binary64`), so that every comparison, finiteness and range test
  the library makes has a stated meaning. It holds the error type and its
  validation helpers, the parameter domains of the copula families (the
  Student-t degrees of freedom among them), rank statistics (average and
  ordinal ranks, Kendall pair counts), the empirical CDF and empirical copula
  counts, the row operations on data matrices, Halton digits and
  Fisher–Yates permutations, k-fold splits, and the vine structure checks and
  sampling order. Laws about these (rank bounds, order invariance, symmetry
  of Kendall's counts and their invariance under monotone maps, monotonicity
  and boundary values of the empirical CDF and copula, primality of the
  Halton bases, ...) are stated and proved as public proof functions next to
  the code they speak of.
- `app/` is the `f64` face of the library: copula CDFs, densities, sampling,
  fitting and goodness-of-fit statistics, which compute with floating point,
  together with the error type's `Display` and the JSON forms of the
  families. It calls the library for everything the library decides.
- `tests/` exercises the library on concrete values.
