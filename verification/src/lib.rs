//! Bundle Protocol version 7 (RFC 9171) with a minimal CBOR codec,
//! CRC checksums, streaming bundle I/O and retention backends.

pub mod bpv7;
pub mod bundle;
pub mod cbor;
pub mod io;
