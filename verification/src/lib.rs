//! A minimal dense-matrix algebra engine paired with a fully-connected
//! feedforward network trained by stochastic gradient-descent
//! backpropagation.
//!
//! Matrices store their entries in a row-major flat buffer, and every
//! operation carries a contract over that buffer. The entry type is left
//! generic: the arithmetic on entries — addition, subtraction,
//! multiplication, the activation pair — is injected as function values, and
//! the contracts pin each result through `call_ensures` of those functions.
//! A caller instantiates the engine with its numeric type (floating point,
//! fixed point, or anything else) and its operations.

pub mod activations;
pub mod matrix;
pub mod network;
