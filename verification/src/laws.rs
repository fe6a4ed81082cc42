//! What the functions of the library promise together, stated over their inputs and results.
//!
//! Each law speaks of what calls give back, whatever the functions do to get there: a call
//! is taken by its contract, and a `&mut` argument by its value before and after it.
pub mod backend;
pub mod calls;
pub mod cuda;
pub mod cuda_encode;
pub mod device;
pub mod encode;
pub mod error;
pub mod icicle;
pub mod numbers;
pub mod prove;
pub mod settings;
pub mod sha256;
pub mod sppark;
pub mod text;
