//! The kernel-machine side: support vectors, kernels and model files.

pub mod kernels;
pub mod models;
pub mod vectors;
