# nn

A small neural-network library whose structural logic is verified with Verus.

- `src/matrix.rs` — `Matrix<T>`, a dense row-major matrix. Construction,
  indexing, transpose, element-wise `map`/`zip`, column sums, addition and
  subtraction in place (of a matrix or a number) and the matrix product are
  verified: every contract says which element each closure call
  receives and where its result goes.
- `src/arith.rs` — row-major index arithmetic, the meaning of a left fold
  and of an inner product computed by caller-supplied closures, and their
  uniqueness when the closures are deterministic.
- `src/nn.rs` — activations, loss functions and the network itself: layer
  shapes, forward propagation (and that `guess` returns its last matrix),
  back propagation of errors into per-layer gradients, one training step
  and one training epoch, all proved to keep the network's architecture.
- `src/optimization.rs` — how gradients become parameter updates (none,
  SGD, RMSProp) and the caches this needs.
- `src/train.rs` — when training reports progress and when training towards
  a target loss gives up.
- `src/data.rs` — owned or static element storage and its chunking.
- `src/zlib.rs` — the bytes of a saved network: its serialized form,
  compressed with zlib (through `flate2`), and back.
- `app/` — the `f64` program: activation and loss formulas, the optimizers'
  update rules, random initialisation, file reading and writing, JSON
  conversion, and the epoch loops that drive the library.
