//! The codec implementations.

pub mod japanese;
pub mod singlebyte;
