//! Storage backends for bundle retention.

pub mod flash;
mod memory;
pub mod multipart;
mod noop;

pub use flash::FlashLayout;
pub use memory::MemoryRetention;
pub use multipart::{FlushStep, MultipartUpload, S3Reader, UploadStep, PART_SIZE};
pub use noop::NoopRetention;

use vstd::prelude::*;

use crate::io::{Error as IoError, Read, Write};

verus! {

/// Storage backend where bundle bytes are retained.
///
/// Bytes are written during reception via [`Write`]; the retained bytes are
/// what the backend has accepted ([`Write::written`]). If parsing succeeds,
/// the retention holds a valid bundle. If parsing fails, call
/// [`discard`](Self::discard) to roll back.
pub trait Retention: Write {
    type Reader<'a>: Read where Self: 'a;

    /// A reader of `len` retained bytes from `offset` on.
    fn reader(&self, offset: u64, len: u64) -> (r: Result<Self::Reader<'_>, IoError>)
        ensures
            r matches Ok(rd) ==> {
                &&& offset + len <= self.written().len()
                &&& rd.pending() == self.written().subrange(offset as int, offset + len)
            },
    ;

    /// Drop everything retained.
    fn discard(&mut self) -> (r: Result<(), IoError>)
        ensures
            r is Ok ==> final(self).written() == Seq::<u8>::empty(),
    ;
}

} // verus!
