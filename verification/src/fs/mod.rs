//! File systems: a virtual file system and per-agent namespaces.
pub mod types;
pub mod path;
pub mod model;
pub mod vfs;
pub mod agentfs;
