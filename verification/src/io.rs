//! Portable I/O traits.
//!
//! [`Read`] and [`Write`] are the byte source and sink that all streaming
//! code in this crate is written against. Each carries a model of its
//! contents: the bytes a reader will still yield, and the bytes a writer
//! has accepted.

use vstd::prelude::*;

verus! {

/// I/O failure reported by a [`Read`] or [`Write`] implementation.
#[derive(Debug, Clone, PartialEq, Eq)]
pub enum Error {
    /// The source ended before the requested bytes were available.
    UnexpectedEof,
    /// Any other failure of the underlying device, with its description.
    Other(String),
}

} // verus!

verus! {

/// A source of bytes.
pub trait Read {
    /// The bytes this source will still yield, in order.
    spec fn pending(&self) -> Seq<u8>;

    /// For a source that copies the bytes it yields to a sink: what it was
    /// to yield, and what the sink held, when the copying began (for any
    /// other source, nothing of interest). Successful reads keep it.
    spec fn copy_origin(&self) -> (Seq<u8>, Seq<u8>);

    /// Whether the copy is exact: the sink holds what it held at the
    /// origin, then exactly the bytes yielded since. Successful reads keep
    /// it so.
    spec fn faithful(&self) -> bool;

    /// Whether this source copies the bytes it yields to a sink. Successful
    /// reads keep it.
    spec fn copies(&self) -> bool;

    /// Whether this source fails only by running short: then a read
    /// succeeds, and an exact read succeeds exactly when the bytes are there
    /// (else it reports the end of the data). Reads keep it so.
    spec fn reliable(&self) -> bool;

    /// What a source that fails only by running short still holds fits in
    /// memory.
    proof fn lemma_reliable_fits(&self)
        requires
            self.reliable(),
        ensures
            self.pending().len() <= usize::MAX,
    ;

    /// Reads up to `buf.len()` bytes into the front of `buf`, returning how
    /// many were read. `Ok(0)` for a non-empty `buf` means the source is exhausted.
    fn read(&mut self, buf: &mut [u8]) -> (r: Result<usize, Error>)
        ensures
            final(buf)@.len() == old(buf)@.len(),
            r matches Ok(n) ==> {
                &&& n <= old(buf)@.len()
                &&& n <= old(self).pending().len()
                &&& final(buf)@.take(n as int) == old(self).pending().take(n as int)
                &&& final(self).pending() == old(self).pending().skip(n as int)
                &&& (n == 0 && old(buf)@.len() > 0 ==> old(self).pending().len() == 0)
            },
            r is Ok ==> final(self).copy_origin() == old(self).copy_origin(),
            r is Ok ==> final(self).copies() == old(self).copies(),
            r is Ok && old(self).faithful() ==> final(self).faithful(),
            old(self).reliable() ==> r is Ok && final(self).reliable(),
    ;

    /// Fills `buf` completely from the source.
    fn read_exact(&mut self, buf: &mut [u8]) -> (r: Result<(), Error>)
        ensures
            final(buf)@.len() == old(buf)@.len(),
            r is Ok ==> {
                &&& old(buf)@.len() <= old(self).pending().len()
                &&& final(buf)@ == old(self).pending().take(old(buf)@.len() as int)
                &&& final(self).pending() == old(self).pending().skip(old(buf)@.len() as int)
            },
            r is Ok ==> final(self).copy_origin() == old(self).copy_origin(),
            r is Ok ==> final(self).copies() == old(self).copies(),
            r is Ok && old(self).faithful() ==> final(self).faithful(),
            old(self).reliable() ==> {
                &&& r is Ok <==> old(buf)@.len() <= old(self).pending().len()
                &&& r is Err ==> r == Err::<(), Error>(Error::UnexpectedEof)
                &&& final(self).reliable()
            },
    ;
}

/// A sink of bytes.
pub trait Write {
    /// The bytes this sink has accepted so far.
    spec fn written(&self) -> Seq<u8>;

    /// Whether this sink never fails (as one in memory). Writes keep it so.
    spec fn reliable(&self) -> bool;

    /// Writes all of `buf`.
    fn write_all(&mut self, buf: &[u8]) -> (r: Result<(), Error>)
        ensures
            r is Ok ==> final(self).written() == old(self).written() + buf@,
            old(self).reliable() ==> r is Ok && final(self).reliable(),
    ;

    /// Pushes buffered bytes to the underlying device.
    fn flush(&mut self) -> (r: Result<(), Error>)
        ensures
            final(self).written() == old(self).written(),
            old(self).reliable() ==> r is Ok && final(self).reliable(),
    ;
}

impl<'a> Read for &'a [u8] {
    open spec fn pending(&self) -> Seq<u8> {
        (**self)@
    }

    open spec fn copy_origin(&self) -> (Seq<u8>, Seq<u8>) {
        (Seq::empty(), Seq::empty())
    }

    open spec fn faithful(&self) -> bool {
        true
    }

    open spec fn copies(&self) -> bool {
        false
    }

    open spec fn reliable(&self) -> bool {
        true
    }

    proof fn lemma_reliable_fits(&self) {
        let s: &[u8] = *self;
        assert(s@.len() == s.len());
    }

    fn read(&mut self, buf: &mut [u8]) -> (r: Result<usize, Error>)
        ensures
            r matches Ok(n) && n == if old(buf)@.len() < old(self).pending().len() {
                old(buf)@.len()
            } else {
                old(self).pending().len()
            },
    {
        let src: &'a [u8] = *self;
        let n = if buf.len() < src.len() {
            buf.len()
        } else {
            src.len()
        };
        let mut i: usize = 0;
        while i < n
            invariant
                i <= n,
                n <= buf@.len(),
                n <= src@.len(),
                buf@.len() == old(buf)@.len(),
                forall|j: int| 0 <= j < i ==> buf@[j] == src@[j],
            decreases n - i,
        {
            buf[i] = src[i];
            i = i + 1;
        }
        *self = &src[n..src.len()];
        assert(buf@.take(n as int) == src@.take(n as int));
        Ok(n)
    }

    fn read_exact(&mut self, buf: &mut [u8]) -> (r: Result<(), Error>)
        ensures
            r is Ok <==> old(buf)@.len() <= old(self).pending().len(),
            r is Err ==> r == Err::<(), Error>(Error::UnexpectedEof) && final(self).pending() == old(self).pending(),
    {
        let src: &'a [u8] = *self;
        if buf.len() > src.len() {
            return Err(Error::UnexpectedEof);
        }
        let n = buf.len();
        let mut i: usize = 0;
        while i < n
            invariant
                i <= n,
                n == buf@.len(),
                n <= src@.len(),
                buf@.len() == old(buf)@.len(),
                forall|j: int| 0 <= j < i ==> buf@[j] == src@[j],
            decreases n - i,
        {
            buf[i] = src[i];
            i = i + 1;
        }
        *self = &src[n..src.len()];
        assert(buf@ == src@.take(n as int));
        Ok(())
    }
}

/// Appends the bytes of `data` to `buf`.
pub fn push_all(buf: &mut Vec<u8>, data: &[u8])
    ensures
        final(buf)@ == old(buf)@ + data@,
{
    let mut i: usize = 0;
    while i < data.len()
        invariant
            i <= data@.len(),
            buf@ == old(buf)@ + data@.subrange(0, i as int),
        decreases data@.len() - i,
    {
        buf.push(data[i]);
        i = i + 1;
        assert(data@.subrange(0, i as int) == data@.subrange(0, i - 1) + seq![data@[i - 1]]);
    }
    assert(data@.subrange(0, data@.len() as int) == data@);
}

impl Write for Vec<u8> {
    open spec fn written(&self) -> Seq<u8> {
        self@
    }

    open spec fn reliable(&self) -> bool {
        true
    }

    fn write_all(&mut self, buf: &[u8]) -> (r: Result<(), Error>)
        ensures
            r is Ok,
    {
        push_all(self, buf);
        Ok(())
    }

    fn flush(&mut self) -> (r: Result<(), Error>)
        ensures
            r is Ok,
    {
        Ok(())
    }
}

impl<'a, W: Write> Write for &'a mut W {
    open spec fn written(&self) -> Seq<u8> {
        (**self).written()
    }

    open spec fn reliable(&self) -> bool {
        (**self).reliable()
    }

    fn write_all(&mut self, buf: &[u8]) -> (r: Result<(), Error>) {
        (**self).write_all(buf)
    }

    fn flush(&mut self) -> (r: Result<(), Error>) {
        (**self).flush()
    }
}

/// A sink that holds the bytes it accepts until they are taken out, for
/// handing them on to a destination that is not written synchronously. Its
/// model counts every byte it accepted, taken out or not.
pub struct OutputBuffer {
    taken_out: Ghost<Seq<u8>>,
    pending: Vec<u8>,
}

impl OutputBuffer {
    /// The bytes accepted and not yet taken out.
    pub closed spec fn held(&self) -> Seq<u8> {
        self.pending@
    }

    pub fn new() -> (r: Self)
        ensures
            r.written() == Seq::<u8>::empty(),
            r.held() == Seq::<u8>::empty(),
    {
        OutputBuffer { taken_out: Ghost(Seq::empty()), pending: Vec::new() }
    }

    /// Take out the bytes held.
    pub fn take(&mut self) -> (r: Vec<u8>)
        ensures
            r@ == old(self).held(),
            final(self).held() == Seq::<u8>::empty(),
            (*final(self)).written() == (*old(self)).written(),
    {
        let mut out: Vec<u8> = Vec::new();
        std::mem::swap(&mut out, &mut self.pending);
        self.taken_out = Ghost(self.taken_out@ + out@);
        out
    }
}

impl Write for OutputBuffer {
    closed spec fn written(&self) -> Seq<u8> {
        self.taken_out@ + self.pending@
    }

    open spec fn reliable(&self) -> bool {
        true
    }

    fn write_all(&mut self, buf: &[u8]) -> (r: Result<(), Error>)
        ensures
            r is Ok,
            final(self).held() == old(self).held() + buf@,
    {
        push_all(&mut self.pending, buf);
        proof {
            assert(self.taken_out@ + self.pending@ =~= old(self).taken_out@ + old(self).pending@ + buf@);
        }
        Ok(())
    }

    fn flush(&mut self) -> (r: Result<(), Error>)
        ensures
            r is Ok,
            final(self).held() == old(self).held(),
    {
        Ok(())
    }
}

/// What is left to read of a byte range: how much of a read request it
/// grants, and whether an exact read fits in it.
pub struct ReadBudget {
    remaining: u64,
}

impl ReadBudget {
    pub closed spec fn spec_remaining(&self) -> u64 {
        self.remaining
    }

    pub fn new(len: u64) -> (r: Self)
        ensures
            r.spec_remaining() == len,
    {
        ReadBudget { remaining: len }
    }

    pub fn remaining(&self) -> (r: u64)
        ensures
            r == self.spec_remaining(),
    {
        self.remaining
    }

    /// How many of `want` bytes a read may take: all of them, or what is
    /// left of the range.
    pub fn grant(&self, want: usize) -> (r: usize)
        ensures
            r == if (want as int) < self.spec_remaining() {
                want as int
            } else {
                self.spec_remaining() as int
            },
    {
        if (want as u64) < self.remaining {
            want
        } else {
            self.remaining as usize
        }
    }

    /// Whether `want` bytes are left to read.
    pub fn fits(&self, want: usize) -> (r: bool)
        ensures
            r == (want <= self.spec_remaining()),
    {
        want as u64 <= self.remaining
    }

    /// `n` bytes were read.
    pub fn consume(&mut self, n: usize)
        requires
            n <= old(self).spec_remaining(),
        ensures
            final(self).spec_remaining() == old(self).spec_remaining() - n,
    {
        self.remaining = self.remaining - n as u64;
    }
}

} // verus!
