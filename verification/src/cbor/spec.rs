//! Byte-level model of the CBOR items this codec reads and writes.

use vstd::prelude::*;
use vstd::string::StringSliceAdditionalSpecFns;
use vstd::utf8::{encode_utf8_valid_utf8, valid_utf8};

use super::error::Error;

verus! {

/// Major type of unsigned integers.
pub const MAJOR_UINT: u8 = 0;
/// Major type of byte strings.
pub const MAJOR_BSTR: u8 = 2;
/// Major type of text strings.
pub const MAJOR_TSTR: u8 = 3;
/// Major type of arrays.
pub const MAJOR_ARRAY: u8 = 4;
/// The "break" stop code that ends an indefinite-length item.
pub const BREAK: u8 = 0xFF;
/// Initial byte of an indefinite-length array.
pub const INDEFINITE_ARRAY: u8 = 0x9F;

/// The initial byte of an item with the given major type and additional information.
pub open spec fn initial_byte(major: u8, additional: u8) -> u8 {
    (major << 5u8) | additional
}

/// Big-endian bytes of the low 16 bits of `v`.
pub open spec fn be_bytes_16(v: u64) -> Seq<u8> {
    seq![(v >> 8u64) as u8, v as u8]
}

/// Big-endian bytes of the low 32 bits of `v`.
pub open spec fn be_bytes_32(v: u64) -> Seq<u8> {
    seq![(v >> 24u64) as u8, (v >> 16u64) as u8, (v >> 8u64) as u8, v as u8]
}

/// Big-endian bytes of `v`.
pub open spec fn be_bytes_64(v: u64) -> Seq<u8> {
    seq![
        (v >> 56u64) as u8,
        (v >> 48u64) as u8,
        (v >> 40u64) as u8,
        (v >> 32u64) as u8,
        (v >> 24u64) as u8,
        (v >> 16u64) as u8,
        (v >> 8u64) as u8,
        v as u8,
    ]
}

/// The head of an item (initial byte and argument) in the shortest form
/// that holds `value` (RFC 8949 §3, preferred serialization).
pub open spec fn encode_head(major: u8, value: u64) -> Seq<u8> {
    if value <= 23 {
        seq![initial_byte(major, value as u8)]
    } else if value <= 0xFF {
        seq![initial_byte(major, 24), value as u8]
    } else if value <= 0xFFFF {
        seq![initial_byte(major, 25)] + be_bytes_16(value)
    } else if value <= 0xFFFF_FFFF {
        seq![initial_byte(major, 26)] + be_bytes_32(value)
    } else {
        seq![initial_byte(major, 27)] + be_bytes_64(value)
    }
}

} // verus!

verus! {

/// The value of two big-endian bytes.
pub open spec fn be16(s: Seq<u8>) -> u64 {
    ((s[0] as u64) << 8u64) | (s[1] as u64)
}

/// The value of four big-endian bytes.
pub open spec fn be32(s: Seq<u8>) -> u64 {
    ((s[0] as u64) << 24u64) | ((s[1] as u64) << 16u64) | ((s[2] as u64) << 8u64) | (s[3] as u64)
}

/// The value of eight big-endian bytes.
pub open spec fn be64(s: Seq<u8>) -> u64 {
    ((s[0] as u64) << 56u64) | ((s[1] as u64) << 48u64) | ((s[2] as u64) << 40u64) | ((
    s[3] as u64) << 32u64) | ((s[4] as u64) << 24u64) | ((s[5] as u64) << 16u64) | ((
    s[6] as u64) << 8u64) | (s[7] as u64)
}

/// The argument encoded by the additional information `additional` and the
/// bytes `s` that follow the initial byte: the value and the number of
/// argument bytes, or the error.
pub open spec fn spec_argument(additional: u8, s: Seq<u8>) -> Result<(u64, nat), Error> {
    if additional <= 23 {
        Ok((additional as u64, 0))
    } else if additional == 24 {
        if s.len() < 1 {
            Err(Error::UnexpectedEof)
        } else {
            Ok((s[0] as u64, 1))
        }
    } else if additional == 25 {
        if s.len() < 2 {
            Err(Error::UnexpectedEof)
        } else {
            Ok((be16(s), 2))
        }
    } else if additional == 26 {
        if s.len() < 4 {
            Err(Error::UnexpectedEof)
        } else {
            Ok((be32(s), 4))
        }
    } else if additional == 27 {
        if s.len() < 8 {
            Err(Error::UnexpectedEof)
        } else {
            Ok((be64(s), 8))
        }
    } else {
        Err(Error::InvalidCbor)
    }
}

/// Reading the head of an item of major type `major` from `s`: on success
/// the argument and the head's length; and in all cases, the number of
/// bytes consumed.
pub open spec fn spec_typed_head(s: Seq<u8>, major: u8, expected: &'static str) -> (Result<
    (u64, nat),
    Error,
>, nat) {
    if s.len() == 0 {
        (Err(Error::UnexpectedEof), 0)
    } else if s[0] >> 5u8 != major {
        (Err(Error::UnexpectedCborType { expected, actual: s[0] }), 1)
    } else {
        match spec_argument(s[0] & 0x1Fu8, s.skip(1)) {
            Ok((v, n)) => (Ok((v, n + 1)), n + 1),
            Err(e) => (Err(e), 1),
        }
    }
}

/// Reading an unsigned integer from `s`: the result and the bytes consumed.
pub open spec fn spec_read_uint(s: Seq<u8>) -> (Result<u64, Error>, nat) {
    let (h, n) = spec_typed_head(s, MAJOR_UINT, "uint");
    (
        match h {
            Ok((v, _)) => Ok(v),
            Err(e) => Err(e),
        },
        n,
    )
}

/// Reading the content of a string of major type `major` from `s`: on
/// success the content and its offset in `s`; and the bytes consumed.
pub open spec fn spec_read_string(s: Seq<u8>, major: u8, expected: &'static str) -> (Result<
    (Seq<u8>, nat),
    Error,
>, nat) {
    let (h, n) = spec_typed_head(s, major, expected);
    match h {
        Ok((len, hl)) => if len > s.len() - hl {
            (Err(Error::UnexpectedEof), hl)
        } else {
            (Ok((s.subrange(hl as int, hl + len), hl)), (hl + len) as nat)
        },
        Err(e) => (Err(e), n),
    }
}

/// Reading a byte string from `s`: its content and offset, and the bytes consumed.
pub open spec fn spec_read_bstr(s: Seq<u8>) -> (Result<(Seq<u8>, nat), Error>, nat) {
    spec_read_string(s, MAJOR_BSTR, "bstr")
}

/// Reading a text string from `s`: the UTF-8 bytes of its content, and the bytes consumed.
pub open spec fn spec_read_tstr(s: Seq<u8>) -> (Result<Seq<u8>, Error>, nat) {
    let (r, n) = spec_read_string(s, MAJOR_TSTR, "tstr");
    (
        match r {
            Ok((bytes, _)) => if valid_utf8(bytes) {
                Ok(bytes)
            } else {
                Err(Error::InvalidUtf8)
            },
            Err(e) => Err(e),
        },
        n,
    )
}

/// Reading a definite-length array header from `s`: the number of items,
/// and the bytes consumed.
pub open spec fn spec_read_array_len(s: Seq<u8>) -> (Result<usize, Error>, nat) {
    if s.len() == 0 {
        (Err(Error::UnexpectedEof), 0)
    } else if s[0] >> 5u8 != MAJOR_ARRAY {
        (Err(Error::UnexpectedCborType { expected: "array", actual: s[0] }), 1)
    } else if s[0] & 0x1Fu8 == 31 {
        (Err(Error::UnexpectedCborType { expected: "definite array", actual: s[0] }), 1)
    } else {
        match spec_argument(s[0] & 0x1Fu8, s.skip(1)) {
            Ok((v, n)) => (Ok(v as usize), n + 1),
            Err(e) => (Err(e), 1),
        }
    }
}

/// Reading one byte that must equal `expected_byte`: the result and the bytes consumed.
pub open spec fn spec_read_marker(s: Seq<u8>, expected_byte: u8, expected: &'static str) -> (Result<
    (),
    Error,
>, nat) {
    if s.len() == 0 {
        (Err(Error::UnexpectedEof), 0)
    } else if s[0] != expected_byte {
        (Err(Error::UnexpectedCborType { expected, actual: s[0] }), 1)
    } else {
        (Ok(()), 1)
    }
}

/// The major type of the next item of `s`, without consuming it.
pub open spec fn spec_peek_major(s: Seq<u8>) -> Result<u8, Error> {
    if s.len() == 0 {
        Err(Error::UnexpectedEof)
    } else {
        Ok(s[0] >> 5u8)
    }
}

/// Whether the next byte of `s` is the break code, without consuming it.
pub open spec fn spec_is_break(s: Seq<u8>) -> Result<bool, Error> {
    if s.len() == 0 {
        Err(Error::UnexpectedEof)
    } else {
        Ok(s[0] == BREAK)
    }
}

/// The outcome of reading an item that is either an unsigned integer or a text string.
pub enum UintOrTstrSpec {
    Uint(u64),
    Tstr(Seq<u8>),
}

/// Reading an unsigned integer or a text string from `s`, and the bytes consumed.
pub open spec fn spec_read_uint_or_tstr(s: Seq<u8>) -> (Result<UintOrTstrSpec, Error>, nat) {
    if s.len() == 0 {
        (Err(Error::UnexpectedEof), 0)
    } else if s[0] >> 5u8 == MAJOR_UINT {
        let (r, n) = spec_read_uint(s);
        (
            match r {
                Ok(v) => Ok(UintOrTstrSpec::Uint(v)),
                Err(e) => Err(e),
            },
            n,
        )
    } else if s[0] >> 5u8 == MAJOR_TSTR {
        let (r, n) = spec_read_tstr(s);
        (
            match r {
                Ok(b) => Ok(UintOrTstrSpec::Tstr(b)),
                Err(e) => Err(e),
            },
            n,
        )
    } else {
        (Err(Error::UnexpectedCborType { expected: "uint or tstr", actual: s[0] }), 0)
    }
}

// ---------------------------------------------------------------------------
// What a read gives back of a write
// ---------------------------------------------------------------------------

proof fn lemma_initial_byte(major: u8, additional: u8)
    requires
        major < 8,
        additional < 32,
    ensures
        initial_byte(major, additional) >> 5u8 == major,
        initial_byte(major, additional) & 0x1Fu8 == additional,
{
    assert(((major << 5u8) | additional) >> 5u8 == major && ((major << 5u8) | additional) & 0x1Fu8
        == additional) by (bit_vector)
        requires
            major < 8,
            additional < 32,
    ;
}

proof fn lemma_be_roundtrip(v: u64)
    ensures
        v <= 0xFFFF ==> ((((v >> 8u64) as u8) as u64) << 8u64) | ((v as u8) as u64) == v,
        v <= 0xFFFF_FFFF ==> ((((v >> 24u64) as u8) as u64) << 24u64) | ((((v >> 16u64) as u8) as u64)
            << 16u64) | ((((v >> 8u64) as u8) as u64) << 8u64) | ((v as u8) as u64) == v,
        ((((v >> 56u64) as u8) as u64) << 56u64) | ((((v >> 48u64) as u8) as u64) << 48u64) | ((((v
            >> 40u64) as u8) as u64) << 40u64) | ((((v >> 32u64) as u8) as u64) << 32u64) | ((((v
            >> 24u64) as u8) as u64) << 24u64) | ((((v >> 16u64) as u8) as u64) << 16u64) | ((((v
            >> 8u64) as u8) as u64) << 8u64) | ((v as u8) as u64) == v,
{
    assert(v <= 0xFFFF ==> ((((v >> 8u64) as u8) as u64) << 8u64) | ((v as u8) as u64) == v)
        by (bit_vector);
    assert(v <= 0xFFFF_FFFF ==> ((((v >> 24u64) as u8) as u64) << 24u64) | ((((v >> 16u64) as u8) as u64)
        << 16u64) | ((((v >> 8u64) as u8) as u64) << 8u64) | ((v as u8) as u64) == v)
        by (bit_vector);
    assert(((((v >> 56u64) as u8) as u64) << 56u64) | ((((v >> 48u64) as u8) as u64) << 48u64) | ((((v
        >> 40u64) as u8) as u64) << 40u64) | ((((v >> 32u64) as u8) as u64) << 32u64) | ((((v
        >> 24u64) as u8) as u64) << 24u64) | ((((v >> 16u64) as u8) as u64) << 16u64) | ((((v
        >> 8u64) as u8) as u64) << 8u64) | ((v as u8) as u64) == v) by (bit_vector);
}

/// Reading the head of an item written by [`encode_head`] gives back its
/// argument, whatever follows it.
pub proof fn lemma_head_roundtrip(major: u8, value: u64, expected: &'static str, rest: Seq<u8>)
    requires
        major < 8,
    ensures
        spec_typed_head(encode_head(major, value) + rest, major, expected) == (Ok::<
            (u64, nat),
            Error,
        >((value, encode_head(major, value).len())), encode_head(major, value).len()),
        (encode_head(major, value) + rest)[0] & 0x1Fu8 != 31,
{
    let h = encode_head(major, value);
    let s = h + rest;
    lemma_be_roundtrip(value);
    if value <= 23 {
        lemma_initial_byte(major, value as u8);
    } else if value <= 0xFF {
        lemma_initial_byte(major, 24);
        assert(s.skip(1)[0] == value as u8);
        assert(((value as u8) as u64) == value);
    } else if value <= 0xFFFF {
        lemma_initial_byte(major, 25);
        assert(s.skip(1)[0] == (value >> 8u64) as u8);
        assert(s.skip(1)[1] == value as u8);
    } else if value <= 0xFFFF_FFFF {
        lemma_initial_byte(major, 26);
        assert(s.skip(1)[0] == (value >> 24u64) as u8);
        assert(s.skip(1)[1] == (value >> 16u64) as u8);
        assert(s.skip(1)[2] == (value >> 8u64) as u8);
        assert(s.skip(1)[3] == value as u8);
    } else {
        lemma_initial_byte(major, 27);
        assert(s.skip(1)[0] == (value >> 56u64) as u8);
        assert(s.skip(1)[1] == (value >> 48u64) as u8);
        assert(s.skip(1)[2] == (value >> 40u64) as u8);
        assert(s.skip(1)[3] == (value >> 32u64) as u8);
        assert(s.skip(1)[4] == (value >> 24u64) as u8);
        assert(s.skip(1)[5] == (value >> 16u64) as u8);
        assert(s.skip(1)[6] == (value >> 8u64) as u8);
        assert(s.skip(1)[7] == value as u8);
    }
}

/// Reading an unsigned integer gives back the value written, whatever follows it.
pub proof fn lemma_uint_roundtrip(v: u64, rest: Seq<u8>)
    ensures
        spec_read_uint(encode_head(MAJOR_UINT, v) + rest) == (Ok::<u64, Error>(v), encode_head(
            MAJOR_UINT,
            v,
        ).len()),
{
    lemma_head_roundtrip(MAJOR_UINT, v, "uint", rest);
}

/// Reading a byte string gives back the bytes written, whatever follows them.
pub proof fn lemma_bstr_roundtrip(data: Seq<u8>, rest: Seq<u8>)
    requires
        data.len() <= u64::MAX,
    ensures
        ({
            let h = encode_head(MAJOR_BSTR, data.len() as u64);
            spec_read_bstr(h + data + rest) == (Ok::<(Seq<u8>, nat), Error>((data, h.len())), h.len()
                + data.len())
        }),
{
    let h = encode_head(MAJOR_BSTR, data.len() as u64);
    lemma_head_roundtrip(MAJOR_BSTR, data.len() as u64, "bstr", data + rest);
    assert(h + data + rest == h + (data + rest));
    assert((h + data + rest).subrange(h.len() as int, (h.len() + data.len()) as int) == data);
}

/// Reading a text string gives back the UTF-8 bytes of the string written,
/// whatever follows them.
pub proof fn lemma_tstr_roundtrip(s: &str, rest: Seq<u8>)
    requires
        s.spec_bytes().len() <= u64::MAX,
    ensures
        ({
            let h = encode_head(MAJOR_TSTR, s.spec_bytes().len() as u64);
            spec_read_tstr(h + s.spec_bytes() + rest) == (Ok::<Seq<u8>, Error>(s.spec_bytes()), h.len()
                + s.spec_bytes().len())
        }),
{
    let data = s.spec_bytes();
    let h = encode_head(MAJOR_TSTR, data.len() as u64);
    lemma_head_roundtrip(MAJOR_TSTR, data.len() as u64, "tstr", data + rest);
    assert(h + data + rest == h + (data + rest));
    assert((h + data + rest).subrange(h.len() as int, (h.len() + data.len()) as int) == data);
    encode_utf8_valid_utf8(s@);
}

/// Reading a definite-length array header gives back the length written.
pub proof fn lemma_array_len_roundtrip(len: usize, rest: Seq<u8>)
    ensures
        spec_read_array_len(encode_head(MAJOR_ARRAY, len as u64) + rest) == (Ok::<usize, Error>(
            len,
        ), encode_head(MAJOR_ARRAY, len as u64).len()),
{
    lemma_head_roundtrip(MAJOR_ARRAY, len as u64, "array", rest);
}

} // verus!

verus! {

/// Dropping a prefix from a concatenation leaves the rest.
pub proof fn lemma_skip_concat(a: Seq<u8>, b: Seq<u8>)
    ensures
        (a + b).skip(a.len() as int) == b,
{
    assert((a + b).skip(a.len() as int) =~= b);
}

/// Reading a text string gives back its UTF-8 content, whatever follows it.
pub proof fn lemma_tstr_bytes_roundtrip(b: Seq<u8>, rest: Seq<u8>)
    requires
        valid_utf8(b),
        b.len() <= u64::MAX,
    ensures
        ({
            let h = encode_head(MAJOR_TSTR, b.len() as u64);
            &&& spec_read_tstr(h + b + rest) == (Ok::<Seq<u8>, Error>(b), h.len() + b.len())
            &&& spec_read_uint_or_tstr(h + b + rest) == (Ok::<UintOrTstrSpec, Error>(
                UintOrTstrSpec::Tstr(b),
            ), h.len() + b.len())
        }),
{
    let h = encode_head(MAJOR_TSTR, b.len() as u64);
    lemma_head_roundtrip(MAJOR_TSTR, b.len() as u64, "tstr", b + rest);
    assert(h + b + rest == h + (b + rest));
    assert((h + b + rest).subrange(h.len() as int, (h.len() + b.len()) as int) == b);
}

/// Reading an unsigned integer where an integer or a text string may stand.
pub proof fn lemma_uint_or_tstr_uint_roundtrip(v: u64, rest: Seq<u8>)
    ensures
        spec_read_uint_or_tstr(encode_head(MAJOR_UINT, v) + rest) == (Ok::<UintOrTstrSpec, Error>(
            UintOrTstrSpec::Uint(v),
        ), encode_head(MAJOR_UINT, v).len()),
{
    lemma_head_roundtrip(MAJOR_UINT, v, "uint", rest);
}

} // verus!
