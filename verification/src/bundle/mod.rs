//! Bundles backed by a retention store, streaming bundle I/O, and the
//! filter pipeline that runs on it.

pub mod builder;
pub mod filter;
pub mod io;
pub mod retention;
pub mod stored;

pub use builder::BundleBuilder;
pub use filter::FilterChain;
pub use io::{BlockEvent, BundleReader, BundleWriter, OpenBundleReader, OpenBundleWriter, ReadResult};
pub use retention::{MemoryRetention, Retention};
pub use stored::Bundle;
