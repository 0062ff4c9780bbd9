//! A dense feedforward neural network with manual backpropagation, built on a
//! hand-written dense matrix engine.
//!
//! The engine is generic over the scalar type `T`. All scalar arithmetic is
//! supplied by the caller as function values; every contract pins the result
//! of an operation as the unique value admitted by the postconditions of the
//! supplied functions. This keeps the shape discipline, the buffer reuse and
//! the gradient bookkeeping fully verified while the numeric type stays the
//! caller's choice.

pub mod matrix;
pub mod nn;
pub mod scalar;
