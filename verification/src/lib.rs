//! Verified core of a laser-cutter and vinyl-cutter design and control
//! application: device protocols, machine-code text, file-format scanning and
//! the configuration model.

pub mod text;
pub mod device;
pub mod common;
pub mod formats;
pub mod gcode;
pub mod ui_state;
pub mod canvas;
pub mod job;
