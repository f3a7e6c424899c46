# trimat

Ternary (`{-1, 0, +1}`) matrix packing and integer kernels for BitNet-style
models, verified with Verus.

- `src/pack.rs` — the two-bitplane format (`encode`, `decode`, `bit_len`) and
  the round-trip laws between them.
- `src/tensor.rs` — `TernaryTensor`: a packed `rows x cols` matrix with its
  scales held as `f32` bit patterns; element and scale access.
- `src/kernels.rs` — 32-bit plane windows, the int8 row dot product and the
  int8 GEMM row accumulation.
- `src/dispatch.rs` — backend selection and runtime info.
- `src/api.rs` — packing of a quantized matrix and the shape checks of the
  matrix operations.
- `app/` — the Python extension (PyO3/NumPy), the `f32` quantizers and the
  `f32` GEMV/GEMM kernels (scalar, AVX2, NEON), which compute on floats and
  therefore stay outside the verified library.
