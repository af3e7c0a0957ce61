//! Dense row-major matrices and the bookkeeping of a small feed-forward
//! neural network, with their shape and indexing logic verified.
//!
//! The element type is a parameter: every numeric operation on elements is
//! supplied by the caller as a closure, and the contracts say exactly which
//! elements each closure call receives and where its result lands.

pub mod arith;
pub mod data;
pub mod matrix;
pub mod nn;
pub mod optimization;
pub mod train;
pub mod zlib;

pub use data::Data;
pub use matrix::Matrix;
pub use nn::{Activation, LossFunction, NeuralNetwork};
pub use optimization::Optimization;
