//! In-memory retention.

use vstd::prelude::*;

use crate::io::{push_all, Error as IoError, Write};

use super::Retention;

verus! {

/// In-memory retention backed by a `Vec<u8>`.
#[derive(Debug, Clone)]
pub struct MemoryRetention {
    data: Vec<u8>,
}

impl MemoryRetention {
    pub fn new() -> (r: Self)
        ensures
            r.written() == Seq::<u8>::empty(),
    {
        MemoryRetention { data: Vec::new() }
    }

    /// All retained bytes.
    pub fn as_bytes(&self) -> (r: &[u8])
        ensures
            r@ == self.written(),
    {
        self.data.as_slice()
    }
}

impl Default for MemoryRetention {
    fn default() -> (r: Self)
        ensures
            r.written() == Seq::<u8>::empty(),
    {
        MemoryRetention::new()
    }
}

impl Write for MemoryRetention {

    open spec fn reliable(&self) -> bool {
        true
    }
    closed spec fn written(&self) -> Seq<u8> {
        self.data@
    }

    fn write_all(&mut self, buf: &[u8]) -> (r: Result<(), IoError>)
        ensures
            r is Ok,
    {
        push_all(&mut self.data, buf);
        Ok(())
    }

    fn flush(&mut self) -> (r: Result<(), IoError>)
        ensures
            r is Ok,
    {
        Ok(())
    }
}

impl Retention for MemoryRetention {
    type Reader<'a> = &'a [u8];

    fn reader(&self, offset: u64, len: u64) -> (r: Result<&[u8], IoError>)
        ensures
            r is Ok <==> offset + len <= self.written().len(),
            r is Err ==> r == Err::<&[u8], IoError>(IoError::UnexpectedEof),
    {
        let n = self.data.len();
        if offset > n as u64 || len > n as u64 - offset {
            return Err(IoError::UnexpectedEof);
        }
        let start = offset as usize;
        let end = start + len as usize;
        Ok(&self.data.as_slice()[start..end])
    }

    fn discard(&mut self) -> (r: Result<(), IoError>)
        ensures
            r is Ok,
    {
        self.data.clear();
        Ok(())
    }
}

} // verus!
