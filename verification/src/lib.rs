//! CPU tensor kernel core of a language-model runtime, with machine-checked
//! contracts.
//!
//! The crate owns the in-memory layout of weights and activations and the
//! control structure of the linear-algebra primitives that run on them:
//!
//! - [`gguf`] names the element formats and what goes with each;
//! - [`backends::cpu::buf`] holds tensor storage in every format: plain
//!   scalars as bit patterns, block-quantized regions as packed bytes read
//!   in place, with the codecs and the block-wise dot products;
//! - [`backends::cpu::primitives`] holds the primitives on raw storage:
//!   batched and matrix-vector products and element-wise functions;
//! - [`tensor`] holds the shape-and-stride descriptor, tensors over any
//!   scalar type, and the tensor arithmetic up to multi-query attention;
//! - [`accumulate`] holds the vocabulary all contracts share.
//!
//! Scalars are opaque to the crate. It decides which scalars meet, in which
//! order, and where the result goes; it proves that every access is in
//! bounds and every index computation free of overflow. The arithmetic that
//! combines the scalars comes from the caller as function values, and the
//! contracts are stated in terms of what those functions can return.
pub mod accumulate;
pub mod backends;
pub mod error;
pub mod gguf;
pub mod tensor;
