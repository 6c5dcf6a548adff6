//! Evolutionary training of small numeric graphs: the genome, its repair and
//! mutation, local search with checkpoints, and the generational loop.
//!
//! Floating-point values (biases, weights, errors) are carried here as the
//! bit patterns of `f64` numbers. The arithmetic on them happens in the
//! program that drives the library; the structure and every decision that
//! does not need arithmetic on them is verified here.
pub mod config;
pub mod driver;
pub mod network;
pub mod node;
pub mod property;
pub mod rng;
