//! Machine-code generation.

pub mod generator;
