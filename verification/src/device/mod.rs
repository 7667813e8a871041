//! Device protocols and driver decisions.

pub mod vevor_usb_protocol;
pub mod ruida;
pub mod job;
pub mod vevor;
pub mod grbl;
pub mod discovery;
