//! Verified core of an agent-oriented operating system's user-space services.
pub mod keyed;
pub mod text;
pub mod textmap;
pub mod distributed;
pub mod fs;
pub mod agent;
pub mod compositor;
pub mod automation;
pub mod inference;
pub mod ipc;
pub mod memory;
pub mod driver;
pub mod desktop;
pub mod learning;
