//! Retention that keeps nothing.

use vstd::prelude::*;

use crate::io::{Error as IoError, Write};

use super::Retention;

verus! {

/// Retention that drops every byte: for parsing bytes that are already held
/// elsewhere. Its model still records what it accepted, so that a session
/// reading through it keeps its bookkeeping; nothing can be read back.
pub struct NoopRetention {
    accepted: Ghost<Seq<u8>>,
}

impl NoopRetention {
    pub fn new() -> (r: Self)
        ensures
            r.written() == Seq::<u8>::empty(),
    {
        NoopRetention { accepted: Ghost(Seq::empty()) }
    }
}

impl Write for NoopRetention {

    open spec fn reliable(&self) -> bool {
        true
    }
    closed spec fn written(&self) -> Seq<u8> {
        self.accepted@
    }

    fn write_all(&mut self, buf: &[u8]) -> (r: Result<(), IoError>)
        ensures
            r is Ok,
    {
        self.accepted = Ghost(self.accepted@ + buf@);
        Ok(())
    }

    fn flush(&mut self) -> (r: Result<(), IoError>)
        ensures
            r is Ok,
    {
        Ok(())
    }
}

impl Retention for NoopRetention {
    type Reader<'a> = &'a [u8];

    fn reader(&self, offset: u64, len: u64) -> (r: Result<&[u8], IoError>)
        ensures
            r == Err::<&[u8], IoError>(IoError::UnexpectedEof),
    {
        Err(IoError::UnexpectedEof)
    }

    fn discard(&mut self) -> (r: Result<(), IoError>)
        ensures
            r is Ok,
    {
        self.accepted = Ghost(Seq::empty());
        Ok(())
    }
}

} // verus!
