//! A common view of the buffer-based and the streaming CBOR decoders, so
//! that block layouts are read by one piece of code.

use vstd::prelude::*;

use crate::cbor::stream::lemma_consumed_trans;
use crate::cbor::{Decoder, StreamDecoder};
use crate::io::Read;

use super::crc::{spec_from_bytes, stream_failure, Crc};
use super::eid::{spec_parse_eid, Eid, EidView};
use super::error::Error;
use super::parse::{
    buf_array_len, buf_uint, lemma_p_within, lemma_rest_skip, p_array_len, p_bstr, p_uint,
    stream_array_len, stream_uint,
};

verus! {

/// Parsing a CRC value of type `crc_type`: the CRC and the bytes consumed.
pub open spec fn p_crc(s: Seq<u8>, crc_type: u64) -> Result<(Crc, nat), Error> {
    match p_bstr(s) {
        Err(e) => Err(e),
        Ok((b, n)) => match spec_from_bytes(crc_type, b) {
            Ok(c) => Ok((c, n)),
            Err(e) => Err(e),
        },
    }
}

/// A CBOR decoder that block layouts can be read from.
pub trait BlockSource: Sized {
    /// The bytes still to be decoded.
    spec fn input(&self) -> Seq<u8>;

    /// Whether `self` is `old` after consuming `n` bytes.
    spec fn advanced(&self, old: &Self, n: nat) -> bool;

    /// What identifies the underlying input (unchanged by decoding).
    spec fn source(&self) -> Seq<u8>;

    /// Whether failures are exactly the modelled ones (no device can fail).
    spec fn exact() -> bool;

    /// Whether a device under this decoder fails only by running short.
    spec fn reliable(&self) -> bool;

    proof fn lemma_advanced(s0: Self, s1: Self, n: nat)
        requires
            s1.advanced(&s0, n),
            n <= s0.input().len(),
        ensures
            s1.input() == s0.input().skip(n as int),
    ;

    proof fn lemma_advanced_zero(s0: Self)
        ensures
            s0.advanced(&s0, 0),
    ;

    proof fn lemma_advanced_trans(s0: Self, s1: Self, s2: Self, a: nat, b: nat)
        requires
            s1.advanced(&s0, a),
            s2.advanced(&s1, b),
            a + b <= s0.input().len(),
        ensures
            s2.advanced(&s0, a + b),
    ;

    fn src_uint(&mut self) -> (r: Result<u64, Error>)
        ensures
            final(self).source() == old(self).source(),
            r is Ok && old(self).reliable() ==> final(self).reliable(),
            r matches Ok(v) ==> (p_uint(old(self).input()) matches Ok((w, n)) && w == v && n <= old(self).input().len()
                && final(self).advanced(old(self), n)),
            r matches Err(e) ==> (if Self::exact() {
                p_uint(old(self).input()) == Err::<(u64, nat), Error>(e)
            } else {
                stream_failure(e, p_uint(old(self).input()), old(self).reliable())
            }),
    ;

    fn src_array_len(&mut self) -> (r: Result<usize, Error>)
        ensures
            final(self).source() == old(self).source(),
            r is Ok && old(self).reliable() ==> final(self).reliable(),
            r matches Ok(v) ==> (p_array_len(old(self).input()) matches Ok((w, n)) && w == v && n <= old(self).input().len()
                && final(self).advanced(old(self), n)),
            r matches Err(e) ==> (if Self::exact() {
                p_array_len(old(self).input()) == Err::<(usize, nat), Error>(e)
            } else {
                stream_failure(e, p_array_len(old(self).input()), old(self).reliable())
            }),
    ;

    fn src_eid(&mut self) -> (r: Result<Eid, Error>)
        ensures
            final(self).source() == old(self).source(),
            r is Ok && old(self).reliable() ==> final(self).reliable(),
            (match r { Ok(e) => Ok::<EidView, Error>(e@), Err(e) => Err::<EidView, Error>(e) }) matches Ok(v) ==> (spec_parse_eid(old(self).input()) matches Ok((w, n)) && w == v && n <= old(self).input().len()
                && final(self).advanced(old(self), n)),
            (match r { Ok(e) => Ok::<EidView, Error>(e@), Err(e) => Err::<EidView, Error>(e) }) matches Err(e) ==> (if Self::exact() {
                spec_parse_eid(old(self).input()) == Err::<(EidView, nat), Error>(e)
            } else {
                stream_failure(e, spec_parse_eid(old(self).input()), old(self).reliable())
            }),
    ;

    fn src_crc(&mut self, crc_type: u64) -> (r: Result<Crc, Error>)
        ensures
            final(self).source() == old(self).source(),
            r is Ok && old(self).reliable() ==> final(self).reliable(),
            r matches Ok(v) ==> (p_crc(old(self).input(), crc_type) matches Ok((w, n)) && w == v && n <= old(self).input().len()
                && final(self).advanced(old(self), n)),
            r matches Err(e) ==> (if Self::exact() {
                p_crc(old(self).input(), crc_type) == Err::<(Crc, nat), Error>(e)
            } else {
                stream_failure(e, p_crc(old(self).input(), crc_type), old(self).reliable())
            }),
    ;
}

/// Whether a decoder went from `old` to `new` by a parse with result `r` (by
/// view) whose model on `old`'s input is `model`: a success is the modelled
/// one and consumes exactly the modelled bytes; a failure is the modelled
/// failure, or, for a decoder over a device, one reported by the device.
pub open spec fn src_step<D: BlockSource, T>(new: D, old: D, r: Result<T, Error>, model: Result<(T, nat), Error>) -> bool {
    &&& new.source() == old.source()
    &&& match r {
        Ok(v) => model matches Ok((w, n)) && w == v && n <= old.input().len() && new.advanced(&old, n) && (
        old.reliable() ==> new.reliable()),
        Err(e) => if D::exact() {
            model == Err::<(T, nat), Error>(e)
        } else {
            stream_failure(e, model, old.reliable())
        },
    }
}

impl<'a> BlockSource for Decoder<'a> {
    open spec fn input(&self) -> Seq<u8> {
        self.rest()
    }

    open spec fn advanced(&self, old: &Self, n: nat) -> bool {
        self.data() == old.data() && self.pos() == old.pos() + n
    }

    open spec fn source(&self) -> Seq<u8> {
        self.data()
    }

    open spec fn exact() -> bool {
        true
    }

    open spec fn reliable(&self) -> bool {
        true
    }

    proof fn lemma_advanced(s0: Self, s1: Self, n: nat) {
        lemma_rest_skip(s0, s1, n);
    }

    proof fn lemma_advanced_zero(s0: Self) {
    }

    proof fn lemma_advanced_trans(s0: Self, s1: Self, s2: Self, a: nat, b: nat) {
    }

    fn src_uint(&mut self) -> (r: Result<u64, Error>) {
        proof {
            lemma_p_within(old(self).rest());
        }
        buf_uint(self)
    }

    fn src_array_len(&mut self) -> (r: Result<usize, Error>) {
        proof {
            lemma_p_within(old(self).rest());
        }
        buf_array_len(self)
    }

    fn src_eid(&mut self) -> (r: Result<Eid, Error>) {
        let r = Eid::decode_buf(self);
        proof {
            if r is Ok {
                lemma_eid_within(old(self).rest());
            }
        }
        r
    }

    fn src_crc(&mut self, crc_type: u64) -> (r: Result<Crc, Error>) {
        let r = Crc::decode_buf(self, crc_type);
        proof {
            reveal(p_bstr);
            lemma_p_within(old(self).rest());
        }
        r
    }
}

impl<R: Read> BlockSource for StreamDecoder<R> {
    open spec fn input(&self) -> Seq<u8> {
        self.stream()
    }

    open spec fn advanced(&self, old: &Self, n: nat) -> bool {
        self.consumed(*old, n)
    }

    open spec fn source(&self) -> Seq<u8> {
        Seq::empty()
    }

    open spec fn exact() -> bool {
        false
    }

    open spec fn reliable(&self) -> bool {
        self.spec_reader().reliable()
    }

    proof fn lemma_advanced(s0: Self, s1: Self, n: nat) {
    }

    proof fn lemma_advanced_zero(s0: Self) {
        assert(s0.stream().skip(0) == s0.stream());
    }

    proof fn lemma_advanced_trans(s0: Self, s1: Self, s2: Self, a: nat, b: nat) {
        lemma_consumed_trans(s0, s1, s2, a, b);
    }

    fn src_uint(&mut self) -> (r: Result<u64, Error>) {
        proof {
            lemma_p_within(old(self).stream());
        }
        stream_uint(self)
    }

    fn src_array_len(&mut self) -> (r: Result<usize, Error>) {
        proof {
            lemma_p_within(old(self).stream());
        }
        stream_array_len(self)
    }

    fn src_eid(&mut self) -> (r: Result<Eid, Error>) {
        let r = Eid::decode_stream(self);
        proof {
            if r is Ok {
                lemma_eid_within(old(self).stream());
            }
        }
        r
    }

    fn src_crc(&mut self, crc_type: u64) -> (r: Result<Crc, Error>) {
        let r = Crc::decode_stream(self, crc_type);
        proof {
            reveal(p_bstr);
            lemma_p_within(old(self).stream());
        }
        r
    }
}

/// An endpoint ID parse consumes no more than the input holds.
pub proof fn lemma_eid_within(s: Seq<u8>)
    ensures
        spec_parse_eid(s) matches Ok((_, n)) ==> n <= s.len(),
{
    lemma_p_within(s);
    if let Ok((len, n0)) = p_array_len(s) {
        let s1 = s.skip(n0 as int);
        lemma_p_within(s1);
        if let Ok((scheme, n1)) = p_uint(s1) {
            let s2 = s1.skip(n1 as int);
            lemma_p_within(s2);
            if let Ok((_, n2)) = p_array_len(s2) {
                let s3 = s2.skip(n2 as int);
                lemma_p_within(s3);
                if let Ok((_, n3)) = p_uint(s3) {
                    let s4 = s3.skip(n3 as int);
                    lemma_p_within(s4);
                    if let Ok((_, n4)) = p_uint(s4) {
                        lemma_p_within(s4.skip(n4 as int));
                    }
                }
            }
        }
    }
}

} // verus!
