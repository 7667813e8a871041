//! Shared types and configuration.

pub mod config;
pub mod types;
