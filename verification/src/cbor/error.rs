//! Errors of the CBOR codec.

use vstd::prelude::*;

use crate::io::Error as IoError;

verus! {

/// A CBOR decoding or encoding failure.
#[derive(Debug, Clone, PartialEq, Eq)]
pub enum Error {
    /// The input ended inside an item.
    UnexpectedEof,
    /// The next item is not of the expected kind.
    UnexpectedCborType { expected: &'static str, actual: u8 },
    /// The initial byte carries a reserved additional-information value.
    InvalidCbor,
    /// A text string is not valid UTF-8.
    InvalidUtf8,
    /// The underlying reader or writer failed.
    Io(IoError),
}

} // verus!
