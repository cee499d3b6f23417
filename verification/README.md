# lance_cuvs

The backend's half of building an IVF_PQ vector index for a Lance dataset on the GPU: it trains
a model with cuVS and encodes the dataset into a partition-local artifact. Finishing an index
out of that artifact is Lance's part.

- `src/` is the library. Whatever is decided or computed on the host is there, with contracts
  that Verus proves: which rows are sampled, how vectors become matrices and codebooks become
  Arrow arrays, where the bytes of a column lie in its data file, which batch goes through which
  slot and when, who holds which staging slot, which pages are registered, what is counted.
  Properties of the library as a whole stand as public proof functions whose names start with
  `law_`.
- `app/` drives the library: CUDA and cuVS calls, reading Lance datasets, writing the artifact,
  tasks and threads, the global allocator, logging.
- `tests/` runs the library on concrete values.

Floating-point values pass through the library as bit patterns, and times as nanoseconds. What
is believed without proof about Arrow, Lance and `std` is in `src/columnar.rs` and `src/text.rs`,
in wrappers that each make one outside call.
