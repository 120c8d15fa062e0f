//! BPv7 bundle protocol types (RFC 9171).
//!
//! Core data types for Bundle Protocol Version 7: blocks, CRCs, endpoint
//! IDs, extension blocks and the filter pipeline's traits. No I/O.

pub mod bundle;
pub mod crc;
pub mod eid;
pub mod error;
pub mod extension;
pub mod filter;
pub mod parse;
pub mod source;

pub use crc::{Crc, CrcHasher};
pub use eid::Eid;
pub use error::Error;
pub use extension::{BundleAge, Extension, HopCount, PreviousNode};
pub use filter::{BundleFilter, BundleMetadata, BundleMutator, FilterRejection};
