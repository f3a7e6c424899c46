//! Ternary matrix packing and integer kernels for BitNet-style `{-1, 0, +1}` weights.
//!
//! Weights are stored as two bitplanes (`nonzero`, `sign`), one bit per element,
//! least significant bit first. The modules hold the packing format, the packed
//! tensor type, the integer dot-product kernels and the backend selection.
pub mod pack;
pub mod tensor;
pub mod kernels;
pub mod dispatch;
pub mod api;
