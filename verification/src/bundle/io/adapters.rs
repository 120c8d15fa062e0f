//! Streaming read adapters for deferred retention.

use vstd::prelude::*;

use crate::bundle::retention::Retention;
use crate::io::{push_all, Error as IoError, Read, Write};

verus! {

/// A reader that writes every byte read to a secondary writer.
pub struct TeeReader<R, W> {
    reader: R,
    writer: W,
    first_pending: Ghost<Seq<u8>>,
    first_written: Ghost<Seq<u8>>,
}

impl<R, W> TeeReader<R, W> {
    /// The reader bytes are read from.
    pub closed spec fn source(&self) -> R {
        self.reader
    }

    /// The writer that receives a copy of every byte read.
    pub closed spec fn sink(&self) -> W {
        self.writer
    }

    /// What the source was to yield when the two were joined.
    pub closed spec fn start_pending(&self) -> Seq<u8> {
        self.first_pending@
    }

    /// What the sink had accepted when the two were joined.
    pub closed spec fn start_written(&self) -> Seq<u8> {
        self.first_written@
    }

    pub fn new(reader: R, writer: W) -> (r: Self)
        where R: Read, W: Write,
        ensures
            r.source() == reader,
            r.sink() == writer,
            r.start_pending() == reader.pending(),
            r.start_written() == writer.written(),
            r.faithful(),
    {
        let r = Self {
            first_pending: Ghost(reader.pending()),
            first_written: Ghost(writer.written()),
            reader,
            writer,
        };
        proof {
            assert(r.start_pending().skip(0) =~= r.start_pending());
            assert(r.start_written() + r.start_pending().take(0) =~= r.start_written());
        }
        r
    }

    pub fn into_parts(self) -> (r: (R, W))
        ensures
            r == (self.source(), self.sink()),
    {
        (self.reader, self.writer)
    }
}

/// Reading `n` more bytes keeps a sink's copy in order: the copy grows by
/// exactly the bytes read.
proof fn lemma_copy_step(p0: Seq<u8>, w0: Seq<u8>, pending: Seq<u8>, written: Seq<u8>, n: int)
    requires
        pending.len() <= p0.len(),
        p0.skip(p0.len() - pending.len()) == pending,
        written == w0 + p0.take(p0.len() - pending.len()),
        0 <= n <= pending.len(),
    ensures
        ({
            let k = p0.len() - pending.skip(n).len();
            &&& pending.skip(n).len() <= p0.len()
            &&& p0.skip(k) == pending.skip(n)
            &&& written + pending.take(n) == w0 + p0.take(k)
        }),
{
    let k0 = p0.len() - pending.len();
    let k = k0 + n;
    assert(pending.skip(n).len() == pending.len() - n);
    assert(p0.skip(k) =~= p0.skip(k0).skip(n));
    assert(p0.take(k) =~= p0.take(k0) + p0.skip(k0).take(n));
    assert(w0 + p0.take(k) =~= (w0 + p0.take(k0)) + pending.take(n));
}

impl<R: Read, W: Write> Read for TeeReader<R, W> {
    open spec fn pending(&self) -> Seq<u8> {
        self.source().pending()
    }

    open spec fn copy_origin(&self) -> (Seq<u8>, Seq<u8>) {
        (self.start_pending(), self.start_written())
    }

    open spec fn reliable(&self) -> bool {
        self.source().reliable() && self.sink().reliable()
    }

    open spec fn copies(&self) -> bool {
        true
    }

    proof fn lemma_reliable_fits(&self) {
        self.source().lemma_reliable_fits();
    }

    /// The sink holds what it held when joined, then exactly the bytes read
    /// since.
    open spec fn faithful(&self) -> bool {
        let k = self.start_pending().len() - self.pending().len();
        &&& self.pending().len() <= self.start_pending().len()
        &&& self.start_pending().skip(k) == self.pending()
        &&& self.sink().written() == self.start_written() + self.start_pending().take(k)
    }

    fn read(&mut self, buf: &mut [u8]) -> (r: Result<usize, IoError>)
        ensures
            r matches Ok(n) ==> final(self).sink().written() == old(self).sink().written()
                + old(self).pending().take(n as int),
    {
        let n = self.reader.read(buf)?;
        if n > 0 {
            self.writer.write_all(&buf[0..n])?;
        } else {
            proof {
                assert(old(self).pending().take(0) =~= Seq::<u8>::empty());
                assert(self.writer.written() =~= self.writer.written() + Seq::<u8>::empty());
            }
        }
        proof {
            if old(self).faithful() {
                lemma_copy_step(
                    self.first_pending@,
                    self.first_written@,
                    old(self).pending(),
                    old(self).sink().written(),
                    n as int,
                );
            }
        }
        Ok(n)
    }

    fn read_exact(&mut self, buf: &mut [u8]) -> (r: Result<(), IoError>)
        ensures
            r is Ok ==> final(self).sink().written() == old(self).sink().written()
                + old(self).pending().take(old(buf)@.len() as int),
    {
        self.reader.read_exact(buf)?;
        self.writer.write_all(buf)?;
        proof {
            if old(self).faithful() {
                lemma_copy_step(
                    self.first_pending@,
                    self.first_written@,
                    old(self).pending(),
                    old(self).sink().written(),
                    old(buf)@.len() as int,
                );
            }
        }
        Ok(())
    }
}

/// What a tee reader's sink holds after any number of reads: a reader made
/// by [`TeeReader::new`] copies exactly, and each successful read keeps it
/// so; then the source's bytes at the start are the bytes handed out
/// followed by those still to come, and the sink holds what it held at the
/// start followed by exactly the bytes handed out, in order.
pub proof fn lemma_tee_sink_holds_reads<R: Read, W: Write>(t: TeeReader<R, W>)
    requires
        t.faithful(),
    ensures
        ({
            let handed = t.start_pending().take(t.start_pending().len() - t.pending().len());
            &&& t.start_pending() == handed + t.pending()
            &&& t.sink().written() == t.start_written() + handed
        }),
{
    let k = t.start_pending().len() - t.pending().len();
    assert(t.start_pending() =~= t.start_pending().take(k) + t.start_pending().skip(k));
}

/// A reader that captures all bytes read into an internal buffer.
pub struct CaptureReader<R> {
    reader: R,
    buffer: Vec<u8>,
    first_pending: Ghost<Seq<u8>>,
}

impl<R> CaptureReader<R> {
    /// The reader bytes are read from.
    pub closed spec fn source(&self) -> R {
        self.reader
    }

    /// The bytes read so far.
    pub closed spec fn captured(&self) -> Seq<u8> {
        self.buffer@
    }

    /// What the source was to yield when capturing began.
    pub closed spec fn start_pending(&self) -> Seq<u8> {
        self.first_pending@
    }

    pub fn new(reader: R) -> (r: Self)
        where R: Read,
        ensures
            r.source() == reader,
            r.captured() == Seq::<u8>::empty(),
            r.start_pending() == reader.pending(),
            r.faithful(),
    {
        let r = Self { first_pending: Ghost(reader.pending()), reader, buffer: Vec::with_capacity(4096) };
        proof {
            assert(r.start_pending().skip(0) =~= r.start_pending());
            assert(Seq::<u8>::empty() + r.start_pending().take(0) =~= r.captured());
        }
        r
    }

    pub fn into_parts(self) -> (r: (R, Vec<u8>))
        ensures
            r.0 == self.source(),
            r.1@ == self.captured(),
    {
        (self.reader, self.buffer)
    }
}

impl<R: Read> Read for CaptureReader<R> {
    open spec fn pending(&self) -> Seq<u8> {
        self.source().pending()
    }

    open spec fn copy_origin(&self) -> (Seq<u8>, Seq<u8>) {
        (self.start_pending(), Seq::empty())
    }

    open spec fn reliable(&self) -> bool {
        self.source().reliable()
    }

    open spec fn copies(&self) -> bool {
        false
    }

    proof fn lemma_reliable_fits(&self) {
        self.source().lemma_reliable_fits();
    }

    /// The buffer holds exactly the bytes read since capturing began.
    open spec fn faithful(&self) -> bool {
        let k = self.start_pending().len() - self.pending().len();
        &&& self.pending().len() <= self.start_pending().len()
        &&& self.start_pending().skip(k) == self.pending()
        &&& self.captured() == Seq::<u8>::empty() + self.start_pending().take(k)
    }

    fn read(&mut self, buf: &mut [u8]) -> (r: Result<usize, IoError>)
        ensures
            r matches Ok(n) ==> final(self).captured() == old(self).captured() + old(self).pending().take(
                n as int,
            ),
            r is Err ==> final(self).captured() == old(self).captured(),
    {
        let n = self.reader.read(buf)?;
        push_all(&mut self.buffer, &buf[0..n]);
        proof {
            assert(buf@.subrange(0, n as int) =~= buf@.take(n as int));
            if old(self).faithful() {
                lemma_copy_step(
                    self.first_pending@,
                    Seq::empty(),
                    old(self).pending(),
                    old(self).captured(),
                    n as int,
                );
            }
        }
        Ok(n)
    }

    fn read_exact(&mut self, buf: &mut [u8]) -> (r: Result<(), IoError>)
        ensures
            r is Ok ==> final(self).captured() == old(self).captured() + old(self).pending().take(
                old(buf)@.len() as int,
            ),
            r is Err ==> final(self).captured() == old(self).captured(),
    {
        self.reader.read_exact(buf)?;
        push_all(&mut self.buffer, buf);
        proof {
            if old(self).faithful() {
                lemma_copy_step(
                    self.first_pending@,
                    Seq::empty(),
                    old(self).pending(),
                    old(self).captured(),
                    old(buf)@.len() as int,
                );
            }
        }
        Ok(())
    }
}

/// What a capturing reader holds after any number of reads: a reader made
/// by [`CaptureReader::new`] captures exactly, and each successful read
/// keeps it so; then the source's bytes at the start are the bytes handed
/// out followed by those still to come, and the buffer holds exactly the
/// bytes handed out, in order (nothing, when nothing was read).
pub proof fn lemma_capture_holds_reads<R: Read>(c: CaptureReader<R>)
    requires
        c.faithful(),
    ensures
        ({
            let handed = c.start_pending().take(c.start_pending().len() - c.pending().len());
            &&& c.start_pending() == handed + c.pending()
            &&& c.captured() == handed
        }),
{
    let k = c.start_pending().len() - c.pending().len();
    assert(c.start_pending() =~= c.start_pending().take(k) + c.start_pending().skip(k));
    assert(Seq::<u8>::empty() + c.start_pending().take(k) =~= c.start_pending().take(k));
}

/// Reader that defers retention until explicitly activated.
///
/// It first captures what is read; once activated, it hands the captured
/// bytes (or replacement headers) to the retention and from then on copies
/// every byte read into it.
pub enum DeferredReader<R, S: Retention> {
    Capturing(CaptureReader<R>),
    Teeing(TeeReader<R, S>),
    Taken,
}

impl<R: Read, S: Retention> DeferredReader<R, S> {
    /// Activate retention, flushing captured bytes.
    pub fn activate_retention(&mut self, retention: S) -> (r: Result<(), IoError>)
        ensures
            activated(*old(self), *final(self), retention, None, r),
    {
        self.activate_inner(retention, None)
    }

    /// Activate retention with re-encoded headers (mutated version).
    ///
    /// Discards the original captured bytes. Writes the re-encoded
    /// headers to retention, then payload streams through the tee.
    pub fn activate_retention_replacing(&mut self, retention: S, encoded_headers: &[u8]) -> (r: Result<(), IoError>)
        ensures
            activated(*old(self), *final(self), retention, Some(encoded_headers@), r),
    {
        self.activate_inner(retention, Some(encoded_headers))
    }

    fn activate_inner(&mut self, retention: S, replace: Option<&[u8]>) -> (r: Result<(), IoError>)
        ensures
            activated(
                *old(self),
                *final(self),
                retention,
                match replace {
                    Some(b) => Some(b@),
                    None => None,
                },
                r,
            ),
    {
        let mut retention = retention;
        let mut old = DeferredReader::Taken;
        core::mem::swap(&mut old, self);
        match old {
            DeferredReader::Capturing(capture) => {
                let (source, captured) = capture.into_parts();
                let data: &[u8] = match replace {
                    Some(b) => b,
                    None => captured.as_slice(),
                };
                retention.write_all(data)?;
                *self = DeferredReader::Teeing(TeeReader::new(source, retention));
                Ok(())
            },
            _ => Err(IoError::UnexpectedEof),
        }
    }

    /// The retention, once activated.
    pub fn into_retention(self) -> (r: Option<S>)
        ensures
            r == match self {
                DeferredReader::Teeing(t) => Some(t.sink()),
                _ => None,
            },
    {
        match self {
            DeferredReader::Teeing(tee) => {
                let (_, retention) = tee.into_parts();
                Some(retention)
            },
            _ => None,
        }
    }
}

/// Whether activating a deferred reader in state `before` with `retention`
/// (and, for `Some`, replacement bytes in place of the captured ones) gave
/// state `after` and result `r`: from capturing, a success tees the same
/// source into the retention after handing it the captured (or replacement)
/// bytes; any failure, or a reader that was not capturing, leaves it taken.
pub open spec fn activated<R: Read, S: Retention>(
    before: DeferredReader<R, S>,
    after: DeferredReader<R, S>,
    retention: S,
    replace: Option<Seq<u8>>,
    r: Result<(), IoError>,
) -> bool {
    match before {
        DeferredReader::Capturing(c) => match r {
            Ok(()) => after matches DeferredReader::Teeing(t) && t.source() == c.source()
                && t.sink().written() == retention.written() + match replace {
                Some(b) => b,
                None => c.captured(),
            } && t.start_pending() == c.pending() && t.start_written() == t.sink().written() && t.faithful(),
            Err(_) => after is Taken,
        },
        _ => r == Err::<(), IoError>(IoError::UnexpectedEof) && after is Taken,
    }
}

impl<R: Read, S: Retention> Read for DeferredReader<R, S> {
    open spec fn pending(&self) -> Seq<u8> {
        match self {
            DeferredReader::Capturing(c) => c.pending(),
            DeferredReader::Teeing(t) => t.pending(),
            DeferredReader::Taken => Seq::empty(),
        }
    }

    open spec fn copy_origin(&self) -> (Seq<u8>, Seq<u8>) {
        match self {
            DeferredReader::Capturing(c) => c.copy_origin(),
            DeferredReader::Teeing(t) => t.copy_origin(),
            DeferredReader::Taken => (Seq::empty(), Seq::empty()),
        }
    }

    /// A capturing reader holds exactly the bytes read, a teeing one copies
    /// them exactly; a taken one holds nothing.
    open spec fn copies(&self) -> bool {
        self is Teeing
    }

    open spec fn reliable(&self) -> bool {
        match self {
            DeferredReader::Capturing(c) => c.reliable(),
            DeferredReader::Teeing(t) => t.reliable(),
            DeferredReader::Taken => false,
        }
    }

    proof fn lemma_reliable_fits(&self) {
        match self {
            DeferredReader::Capturing(c) => c.lemma_reliable_fits(),
            DeferredReader::Teeing(t) => t.lemma_reliable_fits(),
            DeferredReader::Taken => {},
        }
    }

    open spec fn faithful(&self) -> bool {
        match self {
            DeferredReader::Capturing(c) => c.faithful(),
            DeferredReader::Teeing(t) => t.faithful(),
            DeferredReader::Taken => false,
        }
    }

    fn read(&mut self, buf: &mut [u8]) -> (r: Result<usize, IoError>)
        ensures
            *old(self) is Taken ==> r == Ok::<usize, IoError>(0) && *final(self) is Taken,
            *old(self) is Capturing ==> *final(self) is Capturing,
            *old(self) is Teeing ==> *final(self) is Teeing,
    {
        match self {
            DeferredReader::Capturing(c) => c.read(buf),
            DeferredReader::Teeing(t) => t.read(buf),
            DeferredReader::Taken => Ok(0),
        }
    }

    fn read_exact(&mut self, buf: &mut [u8]) -> (r: Result<(), IoError>)
        ensures
            *old(self) is Taken ==> r == Err::<(), IoError>(IoError::UnexpectedEof) && *final(self) is Taken,
            *old(self) is Capturing ==> *final(self) is Capturing,
            *old(self) is Teeing ==> *final(self) is Teeing,
    {
        match self {
            DeferredReader::Capturing(c) => c.read_exact(buf),
            DeferredReader::Teeing(t) => t.read_exact(buf),
            DeferredReader::Taken => Err(IoError::UnexpectedEof),
        }
    }
}

} // verus!
