//! Reed-Solomon encoding over the BN254 scalar field.

pub mod backend;
pub mod bits;
pub mod cuda;
pub mod cuda_encode;
pub mod device;
pub mod error;
pub mod field;
mod generator;
pub mod icicle;
pub mod laws;
pub mod layout;
pub mod limbs;
pub mod poly;
pub mod prove;
pub mod reed_solomon;
pub mod roots;
pub mod settings;
pub mod sha256;
pub mod sppark;
pub mod text;
pub mod transform;
