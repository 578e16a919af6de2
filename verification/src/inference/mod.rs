//! Inference requests and streamed answers.
pub mod types;
pub mod stream;
pub mod routing;
pub mod engines;
