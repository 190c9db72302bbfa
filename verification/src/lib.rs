//! A dense row-major matrix library paired with a fixed-topology
//! feed-forward network trained by finite-difference gradient estimation.
//!
//! Arithmetic is abstracted behind the [`scalar::Scalar`] trait so that the
//! matrix and network logic is verified once for every scalar an application
//! chooses to plug in.

pub mod matrix;
pub mod neural_network;
pub mod scalar;
