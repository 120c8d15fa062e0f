//! Streaming CBOR codec over [`Read`]/[`Write`].

use vstd::prelude::*;
use vstd::string::StringSliceAdditionalSpecFns;
use vstd::utf8::encode_utf8;

use crate::io::{Error as IoError, Read, Write};

use super::decode::str_from_utf8;
use super::error::Error;
use super::spec::{
    encode_head, spec_argument, spec_is_break, spec_peek_major, spec_read_array_len,
    spec_read_marker, spec_read_string, spec_read_tstr, spec_read_uint, spec_read_uint_or_tstr,
    spec_typed_head, UintOrTstrSpec, BREAK, INDEFINITE_ARRAY, MAJOR_ARRAY, MAJOR_BSTR, MAJOR_TSTR,
    MAJOR_UINT,
};

verus! {

/// The CBOR error for a failure of the underlying reader or writer.
pub open spec fn spec_from_io(e: IoError) -> Error {
    match e {
        IoError::UnexpectedEof => Error::UnexpectedEof,
        _ => Error::Io(e),
    }
}

pub fn from_io(e: IoError) -> (r: Error)
    ensures
        r == spec_from_io(e),
{
    match e {
        IoError::UnexpectedEof => Error::UnexpectedEof,
        other => Error::Io(other),
    }
}

/// A position counter advanced by `n` bytes (it wraps after 2^64 bytes).
pub open spec fn advance_pos(pos: u64, n: nat) -> u64 {
    ((pos + n) % 0x1_0000_0000_0000_0000) as u64
}

/// Whether `r` is a possible outcome of a streaming read whose outcome on
/// the modelled stream is `model`: a success is exactly the modelled one;
/// a failure is the modelled failure or one reported by the device.
pub open spec fn stream_outcome<T>(r: Result<T, Error>, model: Result<T, Error>) -> bool {
    match r {
        Ok(v) => model == Ok::<T, Error>(v),
        Err(e) => model == Err::<T, Error>(e) || e == Error::UnexpectedEof || e is Io,
    }
}

/// CBOR decoder over any [`Read`] source.
///
/// Returns owned data (unlike the buffer-based [`crate::cbor::Decoder`] which
/// borrows from `&[u8]`). Use [`read_bstr_header`](Self::read_bstr_header) +
/// [`inner`](Self::inner) to stream large byte strings without buffering.
pub struct StreamDecoder<R> {
    reader: R,
    peeked: Option<u8>,
    pos: u64,
}

/// Owned result of reading a uint-or-tstr ambiguity.
pub enum UintOrString {
    Uint(u64),
    Tstr(String),
}

impl UintOrString {
    /// The value as a model: the integer, or the UTF-8 bytes of the string.
    pub open spec fn spec_value(self) -> UintOrTstrSpec {
        match self {
            UintOrString::Uint(v) => UintOrTstrSpec::Uint(v),
            UintOrString::Tstr(s) => UintOrTstrSpec::Tstr(encode_utf8(s@)),
        }
    }
}

impl<R: Read> StreamDecoder<R> {
    /// The underlying reader.
    pub closed spec fn spec_reader(&self) -> R {
        self.reader
    }

    /// A byte read ahead of the reader by a peek, not consumed yet.
    pub closed spec fn peeked(&self) -> Option<u8> {
        self.peeked
    }

    /// Number of bytes consumed (modulo 2^64).
    pub closed spec fn pos(&self) -> u64 {
        self.pos
    }

    /// The bytes this decoder will still decode: a peeked byte, then what the reader yields.
    pub open spec fn stream(&self) -> Seq<u8> {
        match self.peeked() {
            Some(b) => seq![b] + self.spec_reader().pending(),
            None => self.spec_reader().pending(),
        }
    }

    /// Whether `self` is `old` after consuming `n` bytes of the stream (by
    /// successful reads, which keep a faithful reader faithful).
    pub open spec fn consumed(self, old: Self, n: nat) -> bool {
        &&& self.stream() == old.stream().skip(n as int)
        &&& self.pos() == advance_pos(old.pos(), n)
        &&& self.spec_reader().copy_origin() == old.spec_reader().copy_origin()
        &&& old.spec_reader().faithful() ==> self.spec_reader().faithful()
        &&& old.spec_reader().reliable() ==> self.spec_reader().reliable()
        &&& self.spec_reader().copies() == old.spec_reader().copies()
    }

    pub fn new(reader: R) -> (r: Self)
        ensures
            r.spec_reader() == reader,
            r.peeked() is None,
            r.pos() == 0,
    {
        Self { reader, peeked: None, pos: 0 }
    }

    #[inline]
    pub fn position(&self) -> (r: u64)
        ensures
            r == self.pos(),
    {
        self.pos
    }

    /// Get a mutable reference to the inner reader.
    pub fn inner(&mut self) -> (r: &mut R)
        ensures
            *r == old(self).spec_reader(),
            final(self).spec_reader() == *final(r),
            final(self).peeked() == old(self).peeked(),
            final(self).pos() == old(self).pos(),
    {
        &mut self.reader
    }

    /// Consume this decoder, returning the inner reader.
    pub fn into_inner(self) -> (r: R)
        ensures
            r == self.spec_reader(),
    {
        self.reader
    }

    fn next_byte(&mut self) -> (r: Result<u8, Error>)
        ensures
            final(self).peeked() is None,
            r matches Ok(b) ==> old(self).stream().len() > 0 && b == old(self).stream()[0]
                && final(self).consumed(*old(self), 1),
            r matches Err(e) ==> (e == Error::UnexpectedEof || e is Io),
            old(self).stream().len() == 0 ==> r is Err,
            old(self).spec_reader().reliable() && r is Err ==> r == Err::<u8, Error>(Error::UnexpectedEof)
                && old(self).stream().len() == 0,
    {
        if let Some(b) = self.peeked.take() {
            self.pos = self.pos.wrapping_add(1);
            proof {
                assert(old(self).stream().skip(1) == self.stream());
            }
            return Ok(b);
        }
        let mut buf = [0u8; 1];
        match self.reader.read_exact(&mut buf) {
            Ok(()) => {},
            Err(e) => {
                return Err(from_io(e));
            },
        }
        self.pos = self.pos.wrapping_add(1);
        proof {
            assert(old(self).stream().skip(1) == self.stream());
        }
        Ok(buf[0])
    }

    fn peek_byte(&mut self) -> (r: Result<u8, Error>)
        ensures
            r matches Ok(b) ==> old(self).stream().len() > 0 && b == old(self).stream()[0]
                && final(self).stream() == old(self).stream() && final(self).peeked() == Some(b)
                && final(self).pos() == old(self).pos() && final(self).consumed(*old(self), 0),
            r matches Err(e) ==> (e == Error::UnexpectedEof || e is Io),
            old(self).stream().len() == 0 ==> r is Err,
            old(self).spec_reader().reliable() && r is Err ==> r == Err::<u8, Error>(Error::UnexpectedEof)
                && old(self).stream().len() == 0,
    {
        proof {
            assert(old(self).stream().skip(0) =~= old(self).stream());
            assert(advance_pos(old(self).pos(), 0) == old(self).pos());
        }
        if let Some(b) = self.peeked {
            return Ok(b);
        }
        let mut buf = [0u8; 1];
        match self.reader.read_exact(&mut buf) {
            Ok(()) => {},
            Err(e) => {
                return Err(from_io(e));
            },
        }
        self.peeked = Some(buf[0]);
        proof {
            assert(seq![buf[0]] + old(self).stream().skip(1) == old(self).stream());
        }
        Ok(buf[0])
    }

    /// Whether `self` is a possible state after a read from `old` with result
    /// `r`, when the modelled outcome on `old`'s stream is `model` (the result
    /// and the number of bytes consumed): a success is the modelled one and
    /// consumes exactly the modelled bytes; a failure is the modelled failure
    /// or one reported by the reader.
    pub open spec fn read_outcome<T>(self, old: Self, r: Result<T, Error>, model: (Result<T, Error>, nat)) -> bool {
        match r {
            Ok(v) => model.0 == Ok::<T, Error>(v) && self.consumed(old, model.1),
            Err(e) => model.0 == Err::<T, Error>(e) || (!old.spec_reader().reliable() && (e == Error::UnexpectedEof
                || e is Io)),
        }
    }

    /// Reads exactly `n` bytes from the reader (nothing is peeked).
    fn read_exact(&mut self, n: usize) -> (r: Result<Vec<u8>, Error>)
        requires
            old(self).peeked() is None,
        ensures
            final(self).peeked() is None,
            r matches Ok(v) ==> n <= old(self).stream().len() && v@ == old(self).stream().take(
                n as int,
            ) && final(self).consumed(*old(self), n as nat),
            r matches Err(e) ==> (e == Error::UnexpectedEof || e is Io),
            n > old(self).stream().len() ==> r is Err,
            old(self).spec_reader().reliable() && r is Err ==> r == Err::<Vec<u8>, Error>(Error::UnexpectedEof)
                && n > old(self).stream().len(),
    {
        let mut buf = vec![0u8; n];
        match self.reader.read_exact(buf.as_mut_slice()) {
            Ok(()) => {},
            Err(e) => {
                return Err(from_io(e));
            },
        }
        self.pos = self.pos.wrapping_add(n as u64);
        Ok(buf)
    }

    fn read_argument(&mut self, additional: u8) -> (r: Result<u64, Error>)
        requires
            old(self).peeked() is None,
        ensures
            final(self).peeked() is None,
            final(self).read_outcome(*old(self), r, match spec_argument(additional, old(self).stream()) {
                Ok((v, n)) => (Ok::<u64, Error>(v), n),
                Err(e) => (Err::<u64, Error>(e), 0),
            }),
    {
        if additional <= 23 {
            proof {
                assert(old(self).stream().skip(0) == old(self).stream());
            }
            Ok(additional as u64)
        } else if additional == 24 {
            let b = self.next_byte()?;
            Ok(b as u64)
        } else if additional == 25 {
            let b = self.read_exact(2)?;
            Ok(((b[0] as u64) << 8u64) | (b[1] as u64))
        } else if additional == 26 {
            let b = self.read_exact(4)?;
            Ok(((b[0] as u64) << 24u64) | ((b[1] as u64) << 16u64) | ((b[2] as u64) << 8u64) | (
            b[3] as u64))
        } else if additional == 27 {
            let b = self.read_exact(8)?;
            Ok(((b[0] as u64) << 56u64) | ((b[1] as u64) << 48u64) | ((b[2] as u64) << 40u64) | ((
            b[3] as u64) << 32u64) | ((b[4] as u64) << 24u64) | ((b[5] as u64) << 16u64) | ((
            b[6] as u64) << 8u64) | (b[7] as u64))
        } else {
            Err(Error::InvalidCbor)
        }
    }

    /// Peek at the major type of the next item.
    pub fn peek_major(&mut self) -> (r: Result<u8, Error>)
        ensures
            final(self).read_outcome(*old(self), r, (spec_peek_major(old(self).stream()), 0)),
    {
        let b = match self.peek_byte() {
            Ok(b) => b,
            Err(e) => {
                return Err(e);
            },
        };
        proof {
            assert(old(self).stream().skip(0) == old(self).stream());
        }
        Ok(b >> 5u8)
    }

    /// Check if the next byte is a CBOR break code.
    pub fn is_break(&mut self) -> (r: Result<bool, Error>)
        ensures
            final(self).read_outcome(*old(self), r, (spec_is_break(old(self).stream()), 0)),
    {
        let b = match self.peek_byte() {
            Ok(b) => b,
            Err(e) => {
                return Err(e);
            },
        };
        proof {
            assert(old(self).stream().skip(0) == old(self).stream());
        }
        Ok(b == BREAK)
    }

    /// Reads one byte that must be `expected_byte`.
    fn read_marker(&mut self, expected_byte: u8, expected: &'static str) -> (r: Result<(), Error>)
        ensures
            final(self).peeked() is None,
            final(self).read_outcome(
                *old(self),
                r,
                spec_read_marker(old(self).stream(), expected_byte, expected),
            ),
    {
        let b = self.next_byte()?;
        if b != expected_byte {
            return Err(Error::UnexpectedCborType { expected, actual: b });
        }
        Ok(())
    }

    /// Read and consume a break code.
    pub fn read_break(&mut self) -> (r: Result<(), Error>)
        ensures
            final(self).peeked() is None,
            final(self).read_outcome(*old(self), r, spec_read_marker(old(self).stream(), BREAK, "break")),
    {
        self.read_marker(BREAK, "break")
    }

    /// Read an indefinite-length array start marker (0x9F).
    pub fn read_indefinite_array_start(&mut self) -> (r: Result<(), Error>)
        ensures
            final(self).peeked() is None,
            final(self).read_outcome(
                *old(self),
                r,
                spec_read_marker(old(self).stream(), INDEFINITE_ARRAY, "indefinite array"),
            ),
    {
        self.read_marker(INDEFINITE_ARRAY, "indefinite array")
    }

    /// Reads the head of an item of the given major type, returning its argument.
    fn read_typed_head(&mut self, major: u8, expected: &'static str) -> (r: Result<u64, Error>)
        ensures
            final(self).peeked() is None,
            final(self).read_outcome(*old(self), r, match spec_typed_head(old(self).stream(), major, expected) {
                (Ok((v, n)), m) => (Ok::<u64, Error>(v), m),
                (Err(e), m) => (Err::<u64, Error>(e), m),
            }),
    {
        let ghost s = old(self).stream();
        let b = self.next_byte()?;
        let ghost mid = *self;
        let major_found = b >> 5u8;
        let additional = b & 0x1Fu8;
        if major_found != major {
            return Err(Error::UnexpectedCborType { expected, actual: b });
        }
        let v = self.read_argument(additional)?;
        proof {
            let n = spec_argument(additional, s.skip(1))->Ok_0.1;
            lemma_consumed_trans(*old(self), mid, *self, 1, n);
        }
        Ok(v)
    }

    /// Read an unsigned integer.
    pub fn read_uint(&mut self) -> (r: Result<u64, Error>)
        ensures
            final(self).peeked() is None,
            final(self).read_outcome(*old(self), r, spec_read_uint(old(self).stream())),
    {
        self.read_typed_head(MAJOR_UINT, "uint")
    }

    /// Read only the byte string header, returning the data length.
    pub fn read_bstr_header(&mut self) -> (r: Result<u64, Error>)
        ensures
            final(self).peeked() is None,
            final(self).read_outcome(*old(self), r, match spec_typed_head(old(self).stream(), MAJOR_BSTR, "bstr") {
                (Ok((v, n)), m) => (Ok::<u64, Error>(v), m),
                (Err(e), m) => (Err::<u64, Error>(e), m),
            }),
    {
        self.read_typed_head(MAJOR_BSTR, "bstr")
    }

    /// Reads the content of a string of the given major type.
    fn read_string(&mut self, major: u8, expected: &'static str) -> (r: Result<Vec<u8>, Error>)
        ensures
            final(self).peeked() is None,
            final(self).read_outcome(
                *old(self),
                match r {
                    Ok(v) => Ok::<Seq<u8>, Error>(v@),
                    Err(e) => Err::<Seq<u8>, Error>(e),
                },
                match spec_read_string(old(self).stream(), major, expected) {
                    (Ok((b, _)), m) => (Ok::<Seq<u8>, Error>(b), m),
                    (Err(e), m) => (Err::<Seq<u8>, Error>(e), m),
                },
            ),
    {
        let ghost s = old(self).stream();
        let len = self.read_typed_head(major, expected)?;
        let ghost mid = *self;
        proof {
            if self.spec_reader().reliable() {
                self.spec_reader().lemma_reliable_fits();
            }
        }
        if len > usize::MAX as u64 {
            return Err(Error::UnexpectedEof);
        }
        let data = self.read_exact(len as usize)?;
        proof {
            let hl = spec_typed_head(s, major, expected).1;
            lemma_consumed_trans(*old(self), mid, *self, hl, len as nat);
            assert(s.skip(hl as int).take(len as int) == s.subrange(hl as int, hl + len));
        }
        Ok(data)
    }

    /// Read a byte string into an owned `Vec<u8>`.
    pub fn read_bstr(&mut self) -> (r: Result<Vec<u8>, Error>)
        ensures
            final(self).peeked() is None,
            final(self).read_outcome(
                *old(self),
                match r {
                    Ok(v) => Ok::<Seq<u8>, Error>(v@),
                    Err(e) => Err::<Seq<u8>, Error>(e),
                },
                match spec_read_string(old(self).stream(), MAJOR_BSTR, "bstr") {
                    (Ok((b, _)), m) => (Ok::<Seq<u8>, Error>(b), m),
                    (Err(e), m) => (Err::<Seq<u8>, Error>(e), m),
                },
            ),
    {
        self.read_string(MAJOR_BSTR, "bstr")
    }

    /// Read a text string into an owned `String`.
    pub fn read_tstr(&mut self) -> (r: Result<String, Error>)
        ensures
            final(self).peeked() is None,
            final(self).read_outcome(
                *old(self),
                match r {
                    Ok(v) => Ok::<Seq<u8>, Error>(encode_utf8(v@)),
                    Err(e) => Err::<Seq<u8>, Error>(e),
                },
                spec_read_tstr(old(self).stream()),
            ),
    {
        let bytes = self.read_string(MAJOR_TSTR, "tstr")?;
        match str_from_utf8(bytes.as_slice()) {
            Ok(s) => Ok(s.to_owned()),
            Err(_) => Err(Error::InvalidUtf8),
        }
    }

    /// Read a definite-length array header, returning the number of items.
    pub fn read_array_len(&mut self) -> (r: Result<usize, Error>)
        ensures
            final(self).peeked() is None,
            final(self).read_outcome(*old(self), r, spec_read_array_len(old(self).stream())),
    {
        let ghost s = old(self).stream();
        let b = self.next_byte()?;
        let ghost mid = *self;
        let major = b >> 5u8;
        let additional = b & 0x1Fu8;
        if major != MAJOR_ARRAY {
            return Err(Error::UnexpectedCborType { expected: "array", actual: b });
        }
        if additional == 31 {
            return Err(Error::UnexpectedCborType { expected: "definite array", actual: b });
        }
        let v = self.read_argument(additional)?;
        proof {
            let n = spec_argument(additional, s.skip(1))->Ok_0.1;
            lemma_consumed_trans(*old(self), mid, *self, 1, n);
        }
        Ok(v as usize)
    }

    /// Read either a uint or a tstr (owned).
    pub fn read_uint_or_tstr(&mut self) -> (r: Result<UintOrString, Error>)
        ensures
            final(self).read_outcome(
                *old(self),
                match r {
                    Ok(v) => Ok::<UintOrTstrSpec, Error>(v.spec_value()),
                    Err(e) => Err::<UintOrTstrSpec, Error>(e),
                },
                spec_read_uint_or_tstr(old(self).stream()),
            ),
    {
        let major = self.peek_major()?;
        proof {
            assert(old(self).stream().skip(0) == old(self).stream());
            assert(self.stream() == old(self).stream());
            assert(self.pos() == old(self).pos());
        }
        if major == MAJOR_UINT {
            let v = self.read_uint()?;
            Ok(UintOrString::Uint(v))
        } else if major == MAJOR_TSTR {
            let s = self.read_tstr()?;
            Ok(UintOrString::Tstr(s))
        } else {
            let b = self.peek_byte()?;
            proof {
                assert(old(self).stream().skip(0) == old(self).stream());
            }
            Err(Error::UnexpectedCborType { expected: "uint or tstr", actual: b })
        }
    }

    /// Skip `len` bytes of the reader, updating the position.
    pub fn skip(&mut self, len: u64) -> (r: Result<(), Error>)
        ensures
            r is Ok ==> {
                &&& len <= old(self).spec_reader().pending().len()
                &&& final(self).spec_reader().pending() == old(self).spec_reader().pending().skip(len as int)
                &&& final(self).peeked() == old(self).peeked()
                &&& final(self).pos() == advance_pos(old(self).pos(), len as nat)
                &&& final(self).spec_reader().copy_origin() == old(self).spec_reader().copy_origin()
                &&& old(self).spec_reader().faithful() ==> final(self).spec_reader().faithful()
            },
            r matches Err(e) ==> (e == Error::UnexpectedEof || e is Io),
            len > old(self).spec_reader().pending().len() ==> r is Err,
            old(self).spec_reader().reliable() && r is Err ==> r == Err::<(), Error>(Error::UnexpectedEof)
                && len > old(self).spec_reader().pending().len(),
            r is Ok && old(self).spec_reader().reliable() ==> final(self).spec_reader().reliable(),
            r is Ok ==> final(self).spec_reader().copies() == old(self).spec_reader().copies(),
            final(self).peeked() == old(self).peeked(),
    {
        let mut remaining = len;
        while remaining > 0
            invariant
                remaining <= len,
                len - remaining <= old(self).spec_reader().pending().len(),
                self.spec_reader().pending() == old(self).spec_reader().pending().skip(
                    len - remaining,
                ),
                self.peeked() == old(self).peeked(),
                self.pos() == old(self).pos(),
                self.spec_reader().copy_origin() == old(self).spec_reader().copy_origin(),
                old(self).spec_reader().faithful() ==> self.spec_reader().faithful(),
                old(self).spec_reader().reliable() ==> self.spec_reader().reliable(),
                self.spec_reader().copies() == old(self).spec_reader().copies(),
            decreases remaining,
        {
            let to_read: usize = if remaining < 256 {
                remaining as usize
            } else {
                256
            };
            let mut buf = vec![0u8; to_read];
            let ghost before = self.spec_reader().pending();
            match self.reader.read_exact(buf.as_mut_slice()) {
                Ok(()) => {},
                Err(e) => {
                    return Err(from_io(e));
                },
            }
            remaining = remaining - to_read as u64;
            proof {
                assert(before.skip(to_read as int) == old(self).spec_reader().pending().skip(
                    len - remaining,
                ));
            }
        }
        self.pos = self.pos.wrapping_add(len);
        Ok(())
    }

    /// Inform the decoder that `n` bytes were read directly from
    /// [`inner`](Self::inner), so the position stays accurate.
    pub fn advance(&mut self, n: u64)
        ensures
            final(self).spec_reader() == old(self).spec_reader(),
            final(self).peeked() == old(self).peeked(),
            final(self).pos() == advance_pos(old(self).pos(), n as nat),
    {
        self.pos = self.pos.wrapping_add(n);
    }
}

/// CBOR encoder over any [`Write`] sink.
pub struct StreamEncoder<W> {
    writer: W,
    pos: u64,
}

impl<W: Write> StreamEncoder<W> {
    /// The underlying writer.
    pub closed spec fn spec_writer(&self) -> W {
        self.writer
    }

    /// Number of bytes written (modulo 2^64).
    pub closed spec fn pos(&self) -> u64 {
        self.pos
    }

    /// The bytes the underlying writer has accepted.
    pub open spec fn written(&self) -> Seq<u8> {
        self.spec_writer().written()
    }

    /// Whether `self` is `old` after appending `bytes`.
    pub open spec fn appended(self, old: Self, bytes: Seq<u8>) -> bool {
        &&& self.written() == old.written() + bytes
        &&& self.pos() == advance_pos(old.pos(), bytes.len())
    }

    pub fn new(writer: W) -> (r: Self)
        ensures
            r.spec_writer() == writer,
            r.pos() == 0,
    {
        Self { writer, pos: 0 }
    }

    #[inline]
    pub fn position(&self) -> (r: u64)
        ensures
            r == self.pos(),
    {
        self.pos
    }

    /// Get a mutable reference to the inner writer.
    pub fn inner(&mut self) -> (r: &mut W)
        ensures
            *r == old(self).spec_writer(),
            final(self).spec_writer() == *final(r),
            final(self).pos() == old(self).pos(),
    {
        &mut self.writer
    }

    /// Consume this encoder, returning the inner writer.
    pub fn into_inner(self) -> (r: W)
        ensures
            r == self.spec_writer(),
    {
        self.writer
    }

    /// Flush the inner writer.
    pub fn flush(&mut self) -> (r: Result<(), Error>)
        ensures
            final(self).written() == old(self).written(),
            final(self).pos() == old(self).pos(),
            r matches Err(e) ==> (e == Error::UnexpectedEof || e is Io),
            old(self).spec_writer().reliable() ==> r is Ok && final(self).spec_writer().reliable(),
    {
        match self.writer.flush() {
            Ok(()) => Ok(()),
            Err(e) => Err(from_io(e)),
        }
    }

    fn write_all(&mut self, data: &[u8]) -> (r: Result<(), Error>)
        ensures
            r is Ok ==> final(self).appended(*old(self), data@),
            r matches Err(e) ==> (e == Error::UnexpectedEof || e is Io),
            old(self).spec_writer().reliable() ==> r is Ok && final(self).spec_writer().reliable(),
    {
        match self.writer.write_all(data) {
            Ok(()) => {},
            Err(e) => {
                return Err(from_io(e));
            },
        }
        self.pos = self.pos.wrapping_add(data.len() as u64);
        Ok(())
    }

    fn write_head(&mut self, major: u8, value: u64) -> (r: Result<(), Error>)
        requires
            major < 8,
        ensures
            r is Ok ==> final(self).appended(*old(self), encode_head(major, value)),
            r matches Err(e) ==> (e == Error::UnexpectedEof || e is Io),
            old(self).spec_writer().reliable() ==> r is Ok && final(self).spec_writer().reliable(),
    {
        let m = major << 5u8;
        if value <= 23 {
            self.write_all(&[m | value as u8])?;
        } else if value <= 0xFF {
            self.write_all(&[m | 24, value as u8])?;
        } else if value <= 0xFFFF {
            self.write_all(&[m | 25, (value >> 8u64) as u8, value as u8])?;
        } else if value <= 0xFFFF_FFFF {
            self.write_all(
                &[
                    m | 26,
                    (value >> 24u64) as u8,
                    (value >> 16u64) as u8,
                    (value >> 8u64) as u8,
                    value as u8,
                ],
            )?;
        } else {
            self.write_all(
                &[
                    m | 27,
                    (value >> 56u64) as u8,
                    (value >> 48u64) as u8,
                    (value >> 40u64) as u8,
                    (value >> 32u64) as u8,
                    (value >> 24u64) as u8,
                    (value >> 16u64) as u8,
                    (value >> 8u64) as u8,
                    value as u8,
                ],
            )?;
        }
        assert(self.written() == old(self).written() + encode_head(major, value));
        Ok(())
    }

    pub fn write_uint(&mut self, v: u64) -> (r: Result<(), Error>)
        ensures
            r is Ok ==> final(self).appended(*old(self), encode_head(MAJOR_UINT, v)),
            r matches Err(e) ==> (e == Error::UnexpectedEof || e is Io),
            old(self).spec_writer().reliable() ==> r is Ok && final(self).spec_writer().reliable(),
    {
        self.write_head(MAJOR_UINT, v)
    }

    pub fn write_bstr(&mut self, data: &[u8]) -> (r: Result<(), Error>)
        ensures
            r is Ok ==> final(self).appended(
                *old(self),
                encode_head(MAJOR_BSTR, data@.len() as u64) + data@,
            ),
            r matches Err(e) ==> (e == Error::UnexpectedEof || e is Io),
            old(self).spec_writer().reliable() ==> r is Ok && final(self).spec_writer().reliable(),
    {
        self.write_head(MAJOR_BSTR, data.len() as u64)?;
        let ghost mid = *self;
        self.write_all(data)?;
        proof {
            lemma_appended_trans(*old(self), mid, *self, encode_head(MAJOR_BSTR, data@.len() as u64), data@);
        }
        Ok(())
    }

    /// Write only the byte string header (length prefix).
    pub fn write_bstr_header(&mut self, len: u64) -> (r: Result<(), Error>)
        ensures
            r is Ok ==> final(self).appended(*old(self), encode_head(MAJOR_BSTR, len)),
            r matches Err(e) ==> (e == Error::UnexpectedEof || e is Io),
            old(self).spec_writer().reliable() ==> r is Ok && final(self).spec_writer().reliable(),
    {
        self.write_head(MAJOR_BSTR, len)
    }

    pub fn write_tstr(&mut self, s: &str) -> (r: Result<(), Error>)
        ensures
            r is Ok ==> final(self).appended(
                *old(self),
                encode_head(MAJOR_TSTR, s.spec_bytes().len() as u64) + s.spec_bytes(),
            ),
            r matches Err(e) ==> (e == Error::UnexpectedEof || e is Io),
            old(self).spec_writer().reliable() ==> r is Ok && final(self).spec_writer().reliable(),
    {
        let bytes = s.as_bytes();
        self.write_head(MAJOR_TSTR, bytes.len() as u64)?;
        let ghost mid = *self;
        self.write_all(bytes)?;
        proof {
            lemma_appended_trans(*old(self), mid, *self, encode_head(MAJOR_TSTR, bytes@.len() as u64), bytes@);
        }
        Ok(())
    }

    pub fn write_array(&mut self, len: usize) -> (r: Result<(), Error>)
        ensures
            r is Ok ==> final(self).appended(*old(self), encode_head(MAJOR_ARRAY, len as u64)),
            r matches Err(e) ==> (e == Error::UnexpectedEof || e is Io),
            old(self).spec_writer().reliable() ==> r is Ok && final(self).spec_writer().reliable(),
    {
        self.write_head(MAJOR_ARRAY, len as u64)
    }

    pub fn write_indefinite_array(&mut self) -> (r: Result<(), Error>)
        ensures
            r is Ok ==> final(self).appended(*old(self), seq![INDEFINITE_ARRAY]),
            r matches Err(e) ==> (e == Error::UnexpectedEof || e is Io),
            old(self).spec_writer().reliable() ==> r is Ok && final(self).spec_writer().reliable(),
    {
        let ghost w = old(self).written();
        let r = self.write_all(&[INDEFINITE_ARRAY]);
        proof {
            if r is Ok {
                assert(self.written() =~= w + seq![INDEFINITE_ARRAY]);
            }
        }
        r
    }

    pub fn write_break(&mut self) -> (r: Result<(), Error>)
        ensures
            r is Ok ==> final(self).appended(*old(self), seq![BREAK]),
            r matches Err(e) ==> (e == Error::UnexpectedEof || e is Io),
            old(self).spec_writer().reliable() ==> r is Ok && final(self).spec_writer().reliable(),
    {
        let ghost w = old(self).written();
        let r = self.write_all(&[BREAK]);
        proof {
            if r is Ok {
                assert(self.written() =~= w + seq![BREAK]);
            }
        }
        r
    }

    /// Write raw bytes directly to the sink.
    pub fn write_raw(&mut self, data: &[u8]) -> (r: Result<(), Error>)
        ensures
            r is Ok ==> final(self).appended(*old(self), data@),
            r matches Err(e) ==> (e == Error::UnexpectedEof || e is Io),
            old(self).spec_writer().reliable() ==> r is Ok && final(self).spec_writer().reliable(),
    {
        self.write_all(data)
    }

    /// Inform the encoder that `n` bytes were written directly to
    /// [`inner`](Self::inner), so the position stays accurate.
    pub fn advance(&mut self, n: u64)
        ensures
            final(self).spec_writer() == old(self).spec_writer(),
            final(self).pos() == advance_pos(old(self).pos(), n as nat),
    {
        self.pos = self.pos.wrapping_add(n);
    }
}

/// Appending `a` and then `b` is appending `a + b`.
proof fn lemma_appended_trans<W: Write>(
    s0: StreamEncoder<W>,
    s1: StreamEncoder<W>,
    s2: StreamEncoder<W>,
    a: Seq<u8>,
    b: Seq<u8>,
)
    requires
        s1.appended(s0, a),
        s2.appended(s1, b),
    ensures
        s2.appended(s0, a + b),
{
    assert(s0.written() + a + b == s0.written() + (a + b));
    assert(((s0.pos() + a.len()) % 0x1_0000_0000_0000_0000 + b.len()) % 0x1_0000_0000_0000_0000 == (
    s0.pos() + a.len() + b.len()) % 0x1_0000_0000_0000_0000) by (nonlinear_arith);
}

/// Consuming `a` bytes and then `b` bytes is consuming `a + b` bytes.
pub proof fn lemma_consumed_trans<R: Read>(
    s0: StreamDecoder<R>,
    s1: StreamDecoder<R>,
    s2: StreamDecoder<R>,
    a: nat,
    b: nat,
)
    requires
        s1.consumed(s0, a),
        s2.consumed(s1, b),
        a + b <= s0.stream().len(),
    ensures
        s2.consumed(s0, a + b),
        s2.stream().len() == s0.stream().len() - (a + b),
{
    assert(s0.stream().skip(a as int).skip(b as int) == s0.stream().skip((a + b) as int));
    assert(((s0.pos() + a) % 0x1_0000_0000_0000_0000 + b) % 0x1_0000_0000_0000_0000 == (s0.pos() + a
        + b) % 0x1_0000_0000_0000_0000) by (nonlinear_arith);
}

} // verus!
