//! The desktop layer: pixel buffers and window surfaces, colors, input
//! events and errors.
pub mod error;
pub mod theme;
pub mod renderable;
pub mod input;
pub mod window;
