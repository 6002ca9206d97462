//! Numeric primitives for a feed-forward neural network: rectifier
//! activations with the cache a backward pass needs, a dataset splitter that
//! lays examples out as matrix columns, and the framing rules of the weight
//! file.
//!
//! Scalars are single-precision values held by their IEEE 754 bit patterns, so
//! every contract is a statement about integers.

pub mod activation;
pub mod dataset;
pub mod error;
pub mod json;
pub mod matrix;
pub mod scalar;
pub mod weights;
