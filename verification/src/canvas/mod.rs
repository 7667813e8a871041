//! The design canvas model.

pub mod scene;
