//! The agent runtime: kernel interface types, configuration and calls.
pub mod types;
pub mod error;
pub mod config;
pub mod runtime;
