//! A fully connected neural network trained by stochastic gradient descent,
//! one example at a time, over dense row-major matrices.
//!
//! The cell type is a parameter.  Shapes, errors, the order of the steps and
//! the bookkeeping are stated for every cell type; what a cell holds is
//! stated for cell types whose `+`, `-`, `*` and comparisons follow their
//! specification, and through the `ensures` of the activation and
//! learning-rate functions the caller hands in.
//!
//! - `matrix`: the matrix engine.
//! - `activations`: the activation pair and the identity.
//! - `utils`: one-hot encoding of digits and decoding of output vectors.
//! - `network`: construction, forward pass, backpropagation, training,
//!   validation, and the persisted form of the weights and biases.

pub mod activations;
pub mod matrix;
pub mod network;
pub mod utils;
