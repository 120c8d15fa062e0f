//! Buffer-based CBOR encoder to `Vec<u8>`.

use vstd::prelude::*;
use vstd::string::StringSliceAdditionalSpecFns;

use crate::io::push_all;

use super::spec::{encode_head, BREAK, INDEFINITE_ARRAY, MAJOR_ARRAY, MAJOR_BSTR, MAJOR_TSTR, MAJOR_UINT};

verus! {

/// CBOR encoder that writes to a `Vec<u8>`.
pub struct Encoder {
    buf: Vec<u8>,
}

impl View for Encoder {
    type V = Seq<u8>;

    /// The bytes written so far.
    closed spec fn view(&self) -> Seq<u8> {
        self.buf@
    }
}

/// Every write of an encoder appends bytes that depend on the write's
/// arguments alone, so the bytes an encoder holds are determined by the
/// bytes it started with and its writes: encoders that hold the same bytes,
/// as those made by [`Encoder::new`] and [`Encoder::with_capacity`] do (none
/// at all), hold the same bytes after the same writes.
pub proof fn lemma_encoders_agree(a: Encoder, b: Encoder, appended: Seq<u8>)
    requires
        a@ == b@,
    ensures
        a@ + appended == b@ + appended,
{
}

impl Encoder {
    pub fn new() -> (r: Self)
        ensures
            r@ == Seq::<u8>::empty(),
    {
        Encoder { buf: Vec::new() }
    }

    pub fn with_capacity(capacity: usize) -> (r: Self)
        ensures
            r@ == Seq::<u8>::empty(),
    {
        Encoder { buf: Vec::with_capacity(capacity) }
    }

    pub fn position(&self) -> (r: usize)
        ensures
            r == self@.len(),
    {
        self.buf.len()
    }

    pub fn as_bytes(&self) -> (r: &[u8])
        ensures
            r@ == self@,
    {
        self.buf.as_slice()
    }

    pub fn into_bytes(self) -> (r: Vec<u8>)
        ensures
            r@ == self@,
    {
        self.buf
    }

    /// Overwrites the bytes at `pos..pos + data.len()` with `data`.
    pub fn patch(&mut self, pos: usize, data: &[u8])
        requires
            pos + data@.len() <= old(self)@.len(),
        ensures
            final(self)@ == old(self)@.subrange(0, pos as int) + data@ + old(self)@.subrange(
                pos + data@.len(),
                old(self)@.len() as int,
            ),
    {
        let n = self.buf.len();
        let mut i: usize = 0;
        while i < data.len()
            invariant
                i <= data@.len(),
                n == self.buf@.len(),
                pos + data@.len() <= self.buf@.len(),
                self.buf@.len() == old(self)@.len(),
                forall|j: int|
                    0 <= j < self.buf@.len() ==> #[trigger] self.buf@[j] == if pos <= j < pos + i {
                        data@[j - pos]
                    } else {
                        old(self)@[j]
                    },
            decreases data@.len() - i,
        {
            self.buf.set(pos + i, data[i]);
            i = i + 1;
        }
        assert(self.buf@ =~= old(self)@.subrange(0, pos as int) + data@ + old(self)@.subrange(
            pos + data@.len(),
            old(self)@.len() as int,
        ));
    }

    fn write_head(&mut self, major: u8, value: u64)
        requires
            major < 8,
        ensures
            final(self)@ == old(self)@ + encode_head(major, value),
    {
        let m = major << 5u8;
        assert(m == major << 5u8);
        if value <= 23 {
            self.buf.push(m | value as u8);
        } else if value <= 0xFF {
            self.buf.push(m | 24);
            self.buf.push(value as u8);
        } else if value <= 0xFFFF {
            self.buf.push(m | 25);
            self.buf.push((value >> 8u64) as u8);
            self.buf.push(value as u8);
        } else if value <= 0xFFFF_FFFF {
            self.buf.push(m | 26);
            self.buf.push((value >> 24u64) as u8);
            self.buf.push((value >> 16u64) as u8);
            self.buf.push((value >> 8u64) as u8);
            self.buf.push(value as u8);
        } else {
            self.buf.push(m | 27);
            self.buf.push((value >> 56u64) as u8);
            self.buf.push((value >> 48u64) as u8);
            self.buf.push((value >> 40u64) as u8);
            self.buf.push((value >> 32u64) as u8);
            self.buf.push((value >> 24u64) as u8);
            self.buf.push((value >> 16u64) as u8);
            self.buf.push((value >> 8u64) as u8);
            self.buf.push(value as u8);
        }
        assert(self.buf@ =~= old(self)@ + encode_head(major, value));
    }

    pub fn write_uint(&mut self, v: u64)
        ensures
            final(self)@ == old(self)@ + encode_head(MAJOR_UINT, v),
    {
        self.write_head(MAJOR_UINT, v);
    }

    pub fn write_bstr(&mut self, data: &[u8])
        ensures
            final(self)@ == old(self)@ + encode_head(MAJOR_BSTR, data@.len() as u64) + data@,
    {
        self.write_head(MAJOR_BSTR, data.len() as u64);
        push_all(&mut self.buf, data);
    }

    pub fn write_tstr(&mut self, s: &str)
        ensures
            final(self)@ == old(self)@ + encode_head(MAJOR_TSTR, s.spec_bytes().len() as u64)
                + s.spec_bytes(),
    {
        let bytes = s.as_bytes();
        self.write_head(MAJOR_TSTR, bytes.len() as u64);
        push_all(&mut self.buf, bytes);
    }

    pub fn write_array(&mut self, len: usize)
        ensures
            final(self)@ == old(self)@ + encode_head(MAJOR_ARRAY, len as u64),
    {
        self.write_head(MAJOR_ARRAY, len as u64);
    }

    pub fn write_indefinite_array(&mut self)
        ensures
            final(self)@ == old(self)@.push(INDEFINITE_ARRAY),
    {
        self.buf.push(INDEFINITE_ARRAY);
    }

    pub fn write_break(&mut self)
        ensures
            final(self)@ == old(self)@.push(BREAK),
    {
        self.buf.push(BREAK);
    }

    pub fn write_bstr_header(&mut self, len: u64)
        ensures
            final(self)@ == old(self)@ + encode_head(MAJOR_BSTR, len),
    {
        self.write_head(MAJOR_BSTR, len);
    }
}

} // verus!
