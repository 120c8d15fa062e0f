//! Bundle filtering and mutation pipeline.
//!
//! Trait definitions and built-in filters/mutators. The chain that runs
//! them in order is [`crate::bundle::FilterChain`].

pub mod builtin;
pub mod error;
pub mod traits;

pub use error::FilterRejection;
pub use traits::{BundleFilter, BundleMetadata, BundleMutator};
