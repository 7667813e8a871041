//! File formats.

pub mod dxf;
pub mod svg;
