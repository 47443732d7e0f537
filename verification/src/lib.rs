//! Reverse-mode automatic differentiation over scalars and tensors.
pub mod arith;
pub mod graph;
pub mod value;
pub mod shape;
pub mod kernel;
pub mod tensor;
pub mod chain;
