//! The automation engine: tasks, workflows, a dependency-ordered scheduler
//! and triggers.
pub mod error;
pub mod task;
pub mod workflow;
pub mod graph;
pub mod scheduler;
pub mod engine;
pub mod trigger;
