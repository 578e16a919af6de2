//! The compositor: its errors, render layers and GPU resource bookkeeping.
pub mod render;
pub mod resource;
pub mod config;
pub mod animation;
pub mod renderer;
