//! Job model.

pub mod layer;
