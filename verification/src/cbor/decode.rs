//! Buffer-based CBOR decoder over `&[u8]`.

use vstd::prelude::*;
use vstd::string::StringSliceAdditionalSpecFns;
use vstd::utf8::valid_utf8;

use super::error::Error;
use super::spec::{
    be16, be32, be64, spec_argument, spec_typed_head, spec_read_string, spec_is_break, spec_peek_major, spec_read_array_len,
    spec_read_bstr, spec_read_marker, spec_read_tstr, spec_read_uint, spec_read_uint_or_tstr,
    UintOrTstrSpec, BREAK, INDEFINITE_ARRAY, MAJOR_ARRAY, MAJOR_BSTR, MAJOR_TSTR, MAJOR_UINT,
};

verus! {

/// UTF-8 validation and conversion of a byte slice.
///
/// Calls `core::str::from_utf8`. Trusted: it succeeds exactly on byte
/// sequences that are valid UTF-8 (modelled by `vstd::utf8::valid_utf8`),
/// and the string it returns consists of exactly those bytes.
#[verifier::external_body]
pub(crate) fn str_from_utf8(bytes: &[u8]) -> (r: Result<&str, core::str::Utf8Error>)
    ensures
        r is Ok <==> valid_utf8(bytes@),
        r matches Ok(s) ==> s.spec_bytes() == bytes@,
{
    core::str::from_utf8(bytes)
}

/// The error of `core::str::from_utf8`, carried through opaquely: nothing
/// inside it is read.
#[verifier::external_type_specification]
#[verifier::external_body]
pub struct ExUtf8Error(core::str::Utf8Error);

/// CBOR decoder over a byte slice (zero-copy reads).
pub struct Decoder<'a> {
    data: &'a [u8],
    pos: usize,
}

/// Result of reading a uint-or-tstr ambiguity (used for EID SSP).
pub enum UintOrTstr<'a> {
    Uint(u64),
    Tstr(&'a str),
}

impl<'a> UintOrTstr<'a> {
    /// The value as a model: the integer, or the UTF-8 bytes of the string.
    pub open spec fn spec_value(self) -> UintOrTstrSpec {
        match self {
            UintOrTstr::Uint(v) => UintOrTstrSpec::Uint(v),
            UintOrTstr::Tstr(s) => UintOrTstrSpec::Tstr(s.spec_bytes()),
        }
    }
}

impl<'a> Decoder<'a> {
    #[verifier::type_invariant]
    spec fn inv(self) -> bool {
        self.pos <= self.data@.len()
    }

    /// The whole input.
    pub closed spec fn data(self) -> Seq<u8> {
        self.data@
    }

    /// Number of bytes consumed.
    pub closed spec fn pos(self) -> nat {
        if self.pos <= self.data@.len() {
            self.pos as nat
        } else {
            self.data@.len()
        }
    }

    /// The position never passes the end of the input.
    pub proof fn lemma_pos_bound(self)
        ensures
            self.pos() <= self.data().len(),
    {
    }

    /// The input that has not been consumed yet.
    pub open spec fn rest(self) -> Seq<u8> {
        self.data().skip(self.pos() as int)
    }

    pub fn new(data: &'a [u8]) -> (r: Self)
        ensures
            r.data() == data@,
            r.pos() == 0,
    {
        Self { data, pos: 0 }
    }

    pub fn position(&self) -> (r: usize)
        ensures
            r == self.pos(),
            r <= self.data().len(),
    {
        proof {
            use_type_invariant(self);
        }
        self.pos
    }

    fn next_byte(&mut self) -> (r: Result<u8, Error>)
        ensures
            final(self).data() == old(self).data(),
            old(self).rest().len() == 0 ==> r == Err::<u8, Error>(Error::UnexpectedEof) && final(self).pos() == old(self).pos(),
            old(self).rest().len() > 0 ==> r == Ok::<u8, Error>(old(self).rest()[0]) && final(self).pos() == old(self).pos() + 1,
    {
        proof {
            use_type_invariant(&*self);
        }
        if self.pos >= self.data.len() {
            return Err(Error::UnexpectedEof);
        }
        let b = self.data[self.pos];
        self.pos = self.pos + 1;
        Ok(b)
    }

    fn peek_byte(&self) -> (r: Result<u8, Error>)
        ensures
            self.rest().len() == 0 ==> r == Err::<u8, Error>(Error::UnexpectedEof),
            self.rest().len() > 0 ==> r == Ok::<u8, Error>(self.rest()[0]),
    {
        proof {
            use_type_invariant(self);
        }
        if self.pos >= self.data.len() {
            return Err(Error::UnexpectedEof);
        }
        Ok(self.data[self.pos])
    }

    fn read_bytes(&mut self, n: u64) -> (r: Result<&'a [u8], Error>)
        ensures
            final(self).data() == old(self).data(),
            n > old(self).rest().len() ==> (r matches Err(e) && e == Error::UnexpectedEof && final(self).pos() == old(self).pos()),
            n <= old(self).rest().len() ==> (r matches Ok(b) && b@ == old(self).rest().take(n as int)
                && final(self).pos() == old(self).pos() + n),
    {
        proof {
            use_type_invariant(&*self);
        }
        let avail = self.data.len() - self.pos;
        if n > avail as u64 {
            return Err(Error::UnexpectedEof);
        }
        let n = n as usize;
        let slice = &self.data[self.pos..self.pos + n];
        self.pos = self.pos + n;
        Ok(slice)
    }

    fn read_argument(&mut self, additional: u8) -> (r: Result<u64, Error>)
        ensures
            final(self).data() == old(self).data(),
            match spec_argument(additional, old(self).rest()) {
                Ok((v, n)) => r == Ok::<u64, Error>(v) && final(self).pos() == old(self).pos() + n,
                Err(e) => r == Err::<u64, Error>(e) && final(self).pos() == old(self).pos(),
            },
    {
        if additional <= 23 {
            Ok(additional as u64)
        } else if additional == 24 {
            let b = self.next_byte()?;
            Ok(b as u64)
        } else if additional == 25 {
            let b = self.read_bytes(2)?;
            assert(be16(old(self).rest()) == be16(b@));
            Ok(((b[0] as u64) << 8u64) | (b[1] as u64))
        } else if additional == 26 {
            let b = self.read_bytes(4)?;
            assert(be32(old(self).rest()) == be32(b@));
            Ok(((b[0] as u64) << 24u64) | ((b[1] as u64) << 16u64) | ((b[2] as u64) << 8u64) | (
            b[3] as u64))
        } else if additional == 27 {
            let b = self.read_bytes(8)?;
            assert(be64(old(self).rest()) == be64(b@));
            Ok(((b[0] as u64) << 56u64) | ((b[1] as u64) << 48u64) | ((b[2] as u64) << 40u64) | ((
            b[3] as u64) << 32u64) | ((b[4] as u64) << 24u64) | ((b[5] as u64) << 16u64) | ((
            b[6] as u64) << 8u64) | (b[7] as u64))
        } else {
            Err(Error::InvalidCbor)
        }
    }

    pub fn peek_major(&self) -> (r: Result<u8, Error>)
        ensures
            r == spec_peek_major(self.rest()),
    {
        let b = self.peek_byte()?;
        Ok(b >> 5u8)
    }

    pub fn is_break(&self) -> (r: Result<bool, Error>)
        ensures
            r == spec_is_break(self.rest()),
    {
        let b = self.peek_byte()?;
        Ok(b == BREAK)
    }

    pub fn read_break(&mut self) -> (r: Result<(), Error>)
        ensures
            final(self).data() == old(self).data(),
            r == spec_read_marker(old(self).rest(), BREAK, "break").0,
            final(self).pos() == old(self).pos() + spec_read_marker(old(self).rest(), BREAK, "break").1,
    {
        let b = self.next_byte()?;
        if b != BREAK {
            return Err(Error::UnexpectedCborType { expected: "break", actual: b });
        }
        Ok(())
    }

    /// Reads the head of an item of the given major type, returning its argument.
    fn read_typed_head(&mut self, major: u8, expected: &'static str) -> (r: Result<u64, Error>)
        ensures
            final(self).data() == old(self).data(),
            final(self).pos() == old(self).pos() + spec_typed_head(old(self).rest(), major, expected).1,
            match spec_typed_head(old(self).rest(), major, expected).0 {
                Ok((v, _)) => r == Ok::<u64, Error>(v),
                Err(e) => r == Err::<u64, Error>(e),
            },
    {
        proof {
            use_type_invariant(&*self);
        }
        let ghost s = old(self).rest();
        let b = self.next_byte()?;
        assert(self.rest() == s.skip(1));
        let major_found = b >> 5u8;
        let additional = b & 0x1Fu8;
        if major_found != major {
            return Err(Error::UnexpectedCborType { expected, actual: b });
        }
        self.read_argument(additional)
    }

    pub fn read_uint(&mut self) -> (r: Result<u64, Error>)
        ensures
            final(self).data() == old(self).data(),
            r == spec_read_uint(old(self).rest()).0,
            final(self).pos() == old(self).pos() + spec_read_uint(old(self).rest()).1,
    {
        self.read_typed_head(MAJOR_UINT, "uint")
    }

    /// Reads the content of a string of the given major type: the content and
    /// its absolute offset in the input.
    fn read_string(&mut self, major: u8, expected: &'static str) -> (r: Result<(&'a [u8], usize), Error>)
        ensures
            final(self).data() == old(self).data(),
            final(self).pos() == old(self).pos() + spec_read_string(old(self).rest(), major, expected).1,
            match spec_read_string(old(self).rest(), major, expected).0 {
                Ok((b, off)) => r matches Ok((x, o)) && x@ == b && o == old(self).pos() + off,
                Err(e) => r == Err::<(&'a [u8], usize), Error>(e),
            },
    {
        proof {
            use_type_invariant(&*self);
        }
        let ghost s = old(self).rest();
        let len = self.read_typed_head(major, expected)?;
        proof {
            use_type_invariant(&*self);
        }
        let offset = self.pos;
        proof {
            let hl = spec_typed_head(s, major, expected).0->Ok_0.1;
            assert(self.rest() == s.skip(hl as int));
        }
        let data = self.read_bytes(len)?;
        proof {
            let hl = spec_typed_head(s, major, expected).0->Ok_0.1;
            assert(s.skip(hl as int).take(len as int) == s.subrange(hl as int, hl + len));
        }
        Ok((data, offset))
    }

    pub fn read_bstr(&mut self) -> (r: Result<&'a [u8], Error>)
        ensures
            final(self).data() == old(self).data(),
            final(self).pos() == old(self).pos() + spec_read_bstr(old(self).rest()).1,
            match spec_read_bstr(old(self).rest()).0 {
                Ok((b, _)) => r matches Ok(x) && x@ == b,
                Err(e) => r == Err::<&'a [u8], Error>(e),
            },
    {
        let (data, _) = self.read_string(MAJOR_BSTR, "bstr")?;
        Ok(data)
    }

    /// Reads a byte string, also returning the absolute offset of its content.
    pub fn read_bstr_with_offset(&mut self) -> (r: Result<(&'a [u8], usize), Error>)
        ensures
            final(self).data() == old(self).data(),
            final(self).pos() == old(self).pos() + spec_read_bstr(old(self).rest()).1,
            match spec_read_bstr(old(self).rest()).0 {
                Ok((b, off)) => r matches Ok((x, o)) && x@ == b && o == old(self).pos() + off,
                Err(e) => r == Err::<(&'a [u8], usize), Error>(e),
            },
    {
        self.read_string(MAJOR_BSTR, "bstr")
    }

    pub fn read_tstr(&mut self) -> (r: Result<&'a str, Error>)
        ensures
            final(self).data() == old(self).data(),
            final(self).pos() == old(self).pos() + spec_read_tstr(old(self).rest()).1,
            match spec_read_tstr(old(self).rest()).0 {
                Ok(b) => r matches Ok(x) && x.spec_bytes() == b,
                Err(e) => r == Err::<&'a str, Error>(e),
            },
    {
        let (bytes, _) = self.read_string(MAJOR_TSTR, "tstr")?;
        match str_from_utf8(bytes) {
            Ok(s) => Ok(s),
            Err(_) => Err(Error::InvalidUtf8),
        }
    }

    pub fn read_array_len(&mut self) -> (r: Result<usize, Error>)
        ensures
            final(self).data() == old(self).data(),
            r == spec_read_array_len(old(self).rest()).0,
            final(self).pos() == old(self).pos() + spec_read_array_len(old(self).rest()).1,
    {
        proof {
            use_type_invariant(&*self);
        }
        let ghost s = old(self).rest();
        let b = self.next_byte()?;
        assert(self.rest() == s.skip(1));
        let major = b >> 5u8;
        let additional = b & 0x1Fu8;
        if major != MAJOR_ARRAY {
            return Err(Error::UnexpectedCborType { expected: "array", actual: b });
        }
        if additional == 31 {
            return Err(Error::UnexpectedCborType { expected: "definite array", actual: b });
        }
        let v = self.read_argument(additional)?;
        Ok(v as usize)
    }

    pub fn read_indefinite_array_start(&mut self) -> (r: Result<(), Error>)
        ensures
            final(self).data() == old(self).data(),
            r == spec_read_marker(old(self).rest(), INDEFINITE_ARRAY, "indefinite array").0,
            final(self).pos() == old(self).pos() + spec_read_marker(
                old(self).rest(),
                INDEFINITE_ARRAY,
                "indefinite array",
            ).1,
    {
        let b = self.next_byte()?;
        if b != INDEFINITE_ARRAY {
            return Err(Error::UnexpectedCborType { expected: "indefinite array", actual: b });
        }
        Ok(())
    }

    pub fn read_uint_or_tstr(&mut self) -> (r: Result<UintOrTstr<'a>, Error>)
        ensures
            final(self).data() == old(self).data(),
            final(self).pos() == old(self).pos() + spec_read_uint_or_tstr(old(self).rest()).1,
            match spec_read_uint_or_tstr(old(self).rest()).0 {
                Ok(v) => r matches Ok(x) && x.spec_value() == v,
                Err(e) => r matches Err(x) && x == e,
            },
    {
        let major = self.peek_major()?;
        if major == MAJOR_UINT {
            let v = self.read_uint()?;
            Ok(UintOrTstr::Uint(v))
        } else if major == MAJOR_TSTR {
            let s = self.read_tstr()?;
            Ok(UintOrTstr::Tstr(s))
        } else {
            let b = self.peek_byte()?;
            Err(Error::UnexpectedCborType { expected: "uint or tstr", actual: b })
        }
    }
}

} // verus!
