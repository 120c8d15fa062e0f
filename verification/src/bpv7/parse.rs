//! Block-level parsing on top of the CBOR readers: the model of a parse as
//! a function of the input bytes, and the reading steps that both the
//! buffer-based and the streaming decoders share.

use vstd::prelude::*;
use vstd::string::StringSliceAdditionalSpecFns;
use vstd::utf8::valid_utf8;

use crate::cbor::spec::{
    encode_head, lemma_array_len_roundtrip, lemma_bstr_roundtrip, lemma_tstr_bytes_roundtrip,
    lemma_uint_or_tstr_uint_roundtrip, lemma_uint_roundtrip, spec_read_array_len, spec_read_bstr,
    spec_read_uint, spec_read_uint_or_tstr, UintOrTstrSpec, MAJOR_ARRAY, MAJOR_BSTR, MAJOR_TSTR,
    MAJOR_UINT,
};
use crate::cbor::{Decoder, StreamDecoder, UintOrString, UintOrTstr};
use crate::io::Read;

use super::crc::stream_failure;
use super::error::Error;

verus! {

/// Reading an unsigned integer: the value and the bytes consumed.
#[verifier::opaque]
pub open spec fn p_uint(s: Seq<u8>) -> Result<(u64, nat), Error> {
    match spec_read_uint(s) {
        (Ok(v), n) => Ok((v, n)),
        (Err(e), _) => Err(Error::Cbor(e)),
    }
}

/// Reading a definite-length array header: the length and the bytes consumed.
#[verifier::opaque]
pub open spec fn p_array_len(s: Seq<u8>) -> Result<(usize, nat), Error> {
    match spec_read_array_len(s) {
        (Ok(v), n) => Ok((v, n)),
        (Err(e), _) => Err(Error::Cbor(e)),
    }
}

/// Reading a byte string: its content and the bytes consumed.
#[verifier::opaque]
pub open spec fn p_bstr(s: Seq<u8>) -> Result<(Seq<u8>, nat), Error> {
    match spec_read_bstr(s) {
        (Ok((b, _)), n) => Ok((b, n)),
        (Err(e), _) => Err(Error::Cbor(e)),
    }
}

/// Reading an unsigned integer or a text string: the item and the bytes consumed.
#[verifier::opaque]
pub open spec fn p_uint_or_tstr(s: Seq<u8>) -> Result<(UintOrTstrSpec, nat), Error> {
    match spec_read_uint_or_tstr(s) {
        (Ok(v), n) => Ok((v, n)),
        (Err(e), _) => Err(Error::Cbor(e)),
    }
}

/// Whether a buffer decoder went from `old` to `new` by a parse with result
/// `r` (by view) whose model on `old`'s remaining input is `model`: on success
/// the modelled value, with exactly the modelled bytes consumed; on failure
/// the modelled error.
pub open spec fn buf_step<T>(new: Decoder, old: Decoder, r: Result<T, Error>, model: Result<(T, nat), Error>) -> bool {
    &&& new.data() == old.data()
    &&& match model {
        Ok((v, n)) => r == Ok::<T, Error>(v) && new.pos() == old.pos() + n,
        Err(e) => r == Err::<T, Error>(e),
    }
}

/// Whether a streaming decoder went from `old` to `new` by a parse with result
/// `r` (by view) whose model on `old`'s stream is `model`: a success is the
/// modelled one and consumes exactly the modelled bytes; a failure is the
/// modelled failure or one reported by the reader.
pub open spec fn stream_step<R: Read, T>(
    new: StreamDecoder<R>,
    old: StreamDecoder<R>,
    r: Result<T, Error>,
    model: Result<(T, nat), Error>,
) -> bool {
    match r {
        Ok(v) => model matches Ok((w, n)) && w == v && n <= old.stream().len() && new.consumed(
            old,
            n,
        ),
        Err(e) => stream_failure(e, model, old.spec_reader().reliable()),
    }
}

/// A parse consumes no more than the input holds.
pub open spec fn within<T>(model: Result<(T, nat), Error>, s: Seq<u8>) -> bool {
    model matches Ok((_, n)) ==> n <= s.len()
}

pub proof fn lemma_p_within(s: Seq<u8>)
    ensures
        within(p_uint(s), s),
        within(p_array_len(s), s),
        within(p_bstr(s), s),
        within(p_uint_or_tstr(s), s),
{
    reveal(p_uint);
    reveal(p_array_len);
    reveal(p_bstr);
    reveal(p_uint_or_tstr);
}

/// The remaining input of a buffer decoder after `n` more bytes.
pub proof fn lemma_rest_skip(old: Decoder, new: Decoder, n: nat)
    requires
        new.data() == old.data(),
        new.pos() == old.pos() + n,
        n <= old.rest().len(),
    ensures
        new.rest() == old.rest().skip(n as int),
{
    old.lemma_pos_bound();
    assert(new.rest() =~= old.rest().skip(n as int));
}

// ---------------------------------------------------------------------------
// Steps of the buffer-based decoder
// ---------------------------------------------------------------------------

pub fn buf_uint(dec: &mut Decoder) -> (r: Result<u64, Error>)
    ensures
        buf_step(*final(dec), *old(dec), r, p_uint(old(dec).rest())),
{
    proof {
        reveal(p_uint);
    }
    match dec.read_uint() {
        Ok(v) => Ok(v),
        Err(e) => Err(Error::Cbor(e)),
    }
}

pub fn buf_array_len(dec: &mut Decoder) -> (r: Result<usize, Error>)
    ensures
        buf_step(*final(dec), *old(dec), r, p_array_len(old(dec).rest())),
{
    proof {
        reveal(p_array_len);
    }
    match dec.read_array_len() {
        Ok(v) => Ok(v),
        Err(e) => Err(Error::Cbor(e)),
    }
}

pub fn buf_bstr<'a>(dec: &mut Decoder<'a>) -> (r: Result<&'a [u8], Error>)
    ensures
        buf_step(
            *final(dec),
            *old(dec),
            match r {
                Ok(b) => Ok::<Seq<u8>, Error>(b@),
                Err(e) => Err::<Seq<u8>, Error>(e),
            },
            p_bstr(old(dec).rest()),
        ),
{
    proof {
        reveal(p_bstr);
    }
    match dec.read_bstr() {
        Ok(v) => Ok(v),
        Err(e) => Err(Error::Cbor(e)),
    }
}

pub fn buf_uint_or_tstr<'a>(dec: &mut Decoder<'a>) -> (r: Result<UintOrTstr<'a>, Error>)
    ensures
        buf_step(
            *final(dec),
            *old(dec),
            match r {
                Ok(v) => Ok::<UintOrTstrSpec, Error>(v.spec_value()),
                Err(e) => Err::<UintOrTstrSpec, Error>(e),
            },
            p_uint_or_tstr(old(dec).rest()),
        ),
{
    proof {
        reveal(p_uint_or_tstr);
    }
    match dec.read_uint_or_tstr() {
        Ok(v) => Ok(v),
        Err(e) => Err(Error::Cbor(e)),
    }
}

// ---------------------------------------------------------------------------
// Steps of the streaming decoder
// ---------------------------------------------------------------------------

pub fn stream_uint<R: Read>(dec: &mut StreamDecoder<R>) -> (r: Result<u64, Error>)
    ensures
        stream_step(*final(dec), *old(dec), r, p_uint(old(dec).stream())),
        final(dec).peeked() is None,
{
    proof {
        reveal(p_uint);
    }
    proof {
        lemma_p_within(old(dec).stream());
    }
    match dec.read_uint() {
        Ok(v) => Ok(v),
        Err(e) => Err(Error::Cbor(e)),
    }
}

pub fn stream_array_len<R: Read>(dec: &mut StreamDecoder<R>) -> (r: Result<usize, Error>)
    ensures
        stream_step(*final(dec), *old(dec), r, p_array_len(old(dec).stream())),
        final(dec).peeked() is None,
{
    proof {
        reveal(p_array_len);
    }
    proof {
        lemma_p_within(old(dec).stream());
    }
    match dec.read_array_len() {
        Ok(v) => Ok(v),
        Err(e) => Err(Error::Cbor(e)),
    }
}

pub fn stream_bstr<R: Read>(dec: &mut StreamDecoder<R>) -> (r: Result<Vec<u8>, Error>)
    ensures
        stream_step(
            *final(dec),
            *old(dec),
            match r {
                Ok(b) => Ok::<Seq<u8>, Error>(b@),
                Err(e) => Err::<Seq<u8>, Error>(e),
            },
            p_bstr(old(dec).stream()),
        ),
        final(dec).peeked() is None,
{
    proof {
        reveal(p_bstr);
    }
    proof {
        lemma_p_within(old(dec).stream());
    }
    match dec.read_bstr() {
        Ok(v) => Ok(v),
        Err(e) => Err(Error::Cbor(e)),
    }
}

pub fn stream_uint_or_tstr<R: Read>(dec: &mut StreamDecoder<R>) -> (r: Result<UintOrString, Error>)
    ensures
        stream_step(
            *final(dec),
            *old(dec),
            match r {
                Ok(v) => Ok::<UintOrTstrSpec, Error>(v.spec_value()),
                Err(e) => Err::<UintOrTstrSpec, Error>(e),
            },
            p_uint_or_tstr(old(dec).stream()),
        ),
{
    proof {
        reveal(p_uint_or_tstr);
    }
    proof {
        lemma_p_within(old(dec).stream());
    }
    match dec.read_uint_or_tstr() {
        Ok(v) => Ok(v),
        Err(e) => Err(Error::Cbor(e)),
    }
}

// ---------------------------------------------------------------------------
// Reading back what was written
// ---------------------------------------------------------------------------

pub proof fn lemma_p_uint_roundtrip(v: u64, rest: Seq<u8>)
    ensures
        p_uint(encode_head(MAJOR_UINT, v) + rest) == Ok::<(u64, nat), Error>(
            (v, encode_head(MAJOR_UINT, v).len()),
        ),
{
    reveal(p_uint);
    lemma_uint_roundtrip(v, rest);
}

pub proof fn lemma_p_array_len_roundtrip(len: usize, rest: Seq<u8>)
    ensures
        p_array_len(encode_head(MAJOR_ARRAY, len as u64) + rest) == Ok::<(usize, nat), Error>(
            (len, encode_head(MAJOR_ARRAY, len as u64).len()),
        ),
{
    reveal(p_array_len);
    lemma_array_len_roundtrip(len, rest);
}

pub proof fn lemma_p_bstr_roundtrip(data: Seq<u8>, rest: Seq<u8>)
    requires
        data.len() <= u64::MAX,
    ensures
        p_bstr(encode_head(MAJOR_BSTR, data.len() as u64) + data + rest) == Ok::<(Seq<u8>, nat), Error>(
            (data, encode_head(MAJOR_BSTR, data.len() as u64).len() + data.len()),
        ),
{
    reveal(p_bstr);
    lemma_bstr_roundtrip(data, rest);
}

pub proof fn lemma_p_uint_or_tstr_roundtrip(v: u64, b: Seq<u8>, rest: Seq<u8>)
    requires
        valid_utf8(b),
        b.len() <= u64::MAX,
    ensures
        p_uint_or_tstr(encode_head(MAJOR_UINT, v) + rest) == Ok::<(UintOrTstrSpec, nat), Error>(
            (UintOrTstrSpec::Uint(v), encode_head(MAJOR_UINT, v).len()),
        ),
        p_uint_or_tstr(encode_head(MAJOR_TSTR, b.len() as u64) + b + rest) == Ok::<
            (UintOrTstrSpec, nat),
            Error,
        >((UintOrTstrSpec::Tstr(b), encode_head(MAJOR_TSTR, b.len() as u64).len() + b.len())),
{
    reveal(p_uint_or_tstr);
    lemma_uint_or_tstr_uint_roundtrip(v, rest);
    lemma_tstr_bytes_roundtrip(b, rest);
}

} // verus!
