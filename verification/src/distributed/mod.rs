//! Distributed services: nodes, replicated data types, messaging, membership.
pub mod node;
pub mod crdt;
pub mod error;
pub mod membership;
pub mod message;
