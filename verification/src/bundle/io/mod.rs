//! Streaming bundle I/O.

pub mod adapters;
pub mod ingest;
pub mod writer;

pub use writer::{BundleWriter, OpenBundleWriter};
pub mod reader;

pub use reader::{BlockEvent, BundleReader, OpenBundleReader, ReadResult};
pub mod model;
