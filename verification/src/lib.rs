//! Integer logic of a multilayer-perceptron trainer for MNIST: the IDX file
//! format, the memory layout of parameters and activation caches, batching,
//! shuffling, evaluation counts and the confusion matrix.

pub mod batching;
pub mod blas;
pub mod confusion;
pub mod data;
pub mod layout;
pub mod shuffle;
pub mod utils;
