//! CRC field of BPv7 blocks (RFC 9171 §4.2.1) and the two checksums it
//! uses: CRC-16/X-25 (IBM-SDLC) and CRC-32C (Castagnoli).
//!
//! Both are reflected CRCs; each is fully described by its polynomial,
//! initial value and final XOR, and is computed here bit by bit exactly as
//! the model below states.

use vstd::prelude::*;

use crate::cbor::spec::{be_bytes_16, be_bytes_32, encode_head, spec_read_bstr, MAJOR_BSTR};
use crate::cbor::{Decoder, Encoder, StreamDecoder};
use crate::io::Read;

use super::error::Error;

verus! {

// ---------------------------------------------------------------------------
// Checksum model
// ---------------------------------------------------------------------------

/// Reflected CRC-16/X-25 polynomial.
pub const CRC16_POLY: u16 = 0x8408;
/// Reflected CRC-32C polynomial.
pub const CRC32C_POLY: u32 = 0x82F6_3B78;

/// One bit step of the reflected CRC-16.
pub open spec fn crc16_bit(c: u16) -> u16 {
    if c & 1 == 1 {
        (c >> 1u16) ^ CRC16_POLY
    } else {
        c >> 1u16
    }
}

/// Feeding one byte to the CRC-16 register.
pub open spec fn crc16_byte(c: u16, b: u8) -> u16 {
    let c0 = c ^ (b as u16);
    crc16_bit(crc16_bit(crc16_bit(crc16_bit(crc16_bit(crc16_bit(crc16_bit(crc16_bit(c0))))))))
}

/// The CRC-16 register after feeding `data` to register value `c`.
pub open spec fn crc16_update(c: u16, data: Seq<u8>) -> u16
    decreases data.len(),
{
    if data.len() == 0 {
        c
    } else {
        crc16_byte(crc16_update(c, data.drop_last()), data.last())
    }
}

/// CRC-16/X-25 of `data`: initial register 0xFFFF, final XOR 0xFFFF.
pub open spec fn crc16(data: Seq<u8>) -> u16 {
    crc16_update(0xFFFF, data) ^ 0xFFFF
}

/// One bit step of the reflected CRC-32C.
pub open spec fn crc32c_bit(c: u32) -> u32 {
    if c & 1 == 1 {
        (c >> 1u32) ^ CRC32C_POLY
    } else {
        c >> 1u32
    }
}

/// Feeding one byte to the CRC-32C register.
pub open spec fn crc32c_byte(c: u32, b: u8) -> u32 {
    let c0 = c ^ (b as u32);
    crc32c_bit(
        crc32c_bit(crc32c_bit(crc32c_bit(crc32c_bit(crc32c_bit(crc32c_bit(crc32c_bit(c0))))))),
    )
}

/// The CRC-32C register after feeding `data` to register value `c`.
pub open spec fn crc32c_update(c: u32, data: Seq<u8>) -> u32
    decreases data.len(),
{
    if data.len() == 0 {
        c
    } else {
        crc32c_byte(crc32c_update(c, data.drop_last()), data.last())
    }
}

/// CRC-32C of `data`: initial register 0xFFFFFFFF, final XOR 0xFFFFFFFF.
pub open spec fn crc32c(data: Seq<u8>) -> u32 {
    crc32c_update(0xFFFF_FFFF, data) ^ 0xFFFF_FFFF
}

/// Feeding `a` and then `b` to the CRC-16 register is feeding `a + b`.
pub proof fn lemma_crc16_update_concat(c: u16, a: Seq<u8>, b: Seq<u8>)
    ensures
        crc16_update(crc16_update(c, a), b) == crc16_update(c, a + b),
    decreases b.len(),
{
    if b.len() == 0 {
        assert(a + b == a);
    } else {
        lemma_crc16_update_concat(c, a, b.drop_last());
        assert((a + b).drop_last() == a + b.drop_last());
    }
}

/// Feeding `a` and then `b` to the CRC-32C register is feeding `a + b`.
pub proof fn lemma_crc32c_update_concat(c: u32, a: Seq<u8>, b: Seq<u8>)
    ensures
        crc32c_update(crc32c_update(c, a), b) == crc32c_update(c, a + b),
    decreases b.len(),
{
    if b.len() == 0 {
        assert(a + b == a);
    } else {
        lemma_crc32c_update_concat(c, a, b.drop_last());
        assert((a + b).drop_last() == a + b.drop_last());
    }
}

fn crc16_byte_exec(c: u16, b: u8) -> (r: u16)
    ensures
        r == crc16_byte(c, b),
{
    let mut x = c ^ (b as u16);
    let ghost x0 = x;
    x = if x & 1 == 1 { (x >> 1u16) ^ CRC16_POLY } else { x >> 1u16 };
    x = if x & 1 == 1 { (x >> 1u16) ^ CRC16_POLY } else { x >> 1u16 };
    x = if x & 1 == 1 { (x >> 1u16) ^ CRC16_POLY } else { x >> 1u16 };
    x = if x & 1 == 1 { (x >> 1u16) ^ CRC16_POLY } else { x >> 1u16 };
    x = if x & 1 == 1 { (x >> 1u16) ^ CRC16_POLY } else { x >> 1u16 };
    x = if x & 1 == 1 { (x >> 1u16) ^ CRC16_POLY } else { x >> 1u16 };
    x = if x & 1 == 1 { (x >> 1u16) ^ CRC16_POLY } else { x >> 1u16 };
    x = if x & 1 == 1 { (x >> 1u16) ^ CRC16_POLY } else { x >> 1u16 };
    x
}

fn crc32c_byte_exec(c: u32, b: u8) -> (r: u32)
    ensures
        r == crc32c_byte(c, b),
{
    let mut x = c ^ (b as u32);
    x = if x & 1 == 1 { (x >> 1u32) ^ CRC32C_POLY } else { x >> 1u32 };
    x = if x & 1 == 1 { (x >> 1u32) ^ CRC32C_POLY } else { x >> 1u32 };
    x = if x & 1 == 1 { (x >> 1u32) ^ CRC32C_POLY } else { x >> 1u32 };
    x = if x & 1 == 1 { (x >> 1u32) ^ CRC32C_POLY } else { x >> 1u32 };
    x = if x & 1 == 1 { (x >> 1u32) ^ CRC32C_POLY } else { x >> 1u32 };
    x = if x & 1 == 1 { (x >> 1u32) ^ CRC32C_POLY } else { x >> 1u32 };
    x = if x & 1 == 1 { (x >> 1u32) ^ CRC32C_POLY } else { x >> 1u32 };
    x = if x & 1 == 1 { (x >> 1u32) ^ CRC32C_POLY } else { x >> 1u32 };
    x
}

/// Feeds `data` to a CRC-16 register.
fn crc16_update_exec(c: u16, data: &[u8]) -> (r: u16)
    ensures
        r == crc16_update(c, data@),
{
    let mut x = c;
    let mut i: usize = 0;
    while i < data.len()
        invariant
            i <= data@.len(),
            x == crc16_update(c, data@.take(i as int)),
        decreases data@.len() - i,
    {
        assert(data@.take(i + 1).drop_last() == data@.take(i as int));
        x = crc16_byte_exec(x, data[i]);
        i = i + 1;
    }
    assert(data@.take(data@.len() as int) == data@);
    x
}

/// Feeds `data` to a CRC-32C register.
fn crc32c_update_exec(c: u32, data: &[u8]) -> (r: u32)
    ensures
        r == crc32c_update(c, data@),
{
    let mut x = c;
    let mut i: usize = 0;
    while i < data.len()
        invariant
            i <= data@.len(),
            x == crc32c_update(c, data@.take(i as int)),
        decreases data@.len() - i,
    {
        assert(data@.take(i + 1).drop_last() == data@.take(i as int));
        x = crc32c_byte_exec(x, data[i]);
        i = i + 1;
    }
    assert(data@.take(data@.len() as int) == data@);
    x
}

// ---------------------------------------------------------------------------
// CRC field
// ---------------------------------------------------------------------------

/// CRC field (RFC 9171 §4.2.1).
///
/// Encodes both the CRC variant and the value in a single enum.
#[derive(Debug, Clone, Copy, PartialEq, Eq, Structural)]
pub enum Crc {
    NoCrc,
    Crc16(u16),
    Crc32c(u32),
}

/// `bytes` with the `n` bytes at `off` replaced by zeros.
pub open spec fn zeroed(bytes: Seq<u8>, off: int, n: nat) -> Seq<u8> {
    bytes.take(off) + Seq::new(n, |i: int| 0u8) + bytes.skip(off + n)
}

/// The value of two big-endian bytes.
pub open spec fn be_u16(s: Seq<u8>) -> u16 {
    ((s[0] as u16) << 8u16) | (s[1] as u16)
}

/// The value of four big-endian bytes.
pub open spec fn be_u32(s: Seq<u8>) -> u32 {
    ((s[0] as u32) << 24u32) | ((s[1] as u32) << 16u32) | ((s[2] as u32) << 8u32) | (s[3] as u32)
}

/// Parsing a CRC value of type `crc_type` from its bytes.
pub open spec fn spec_from_bytes(crc_type: u64, bytes: Seq<u8>) -> Result<Crc, Error> {
    if crc_type == 1 {
        if bytes.len() != 2 {
            Err(Error::InvalidCrcLength { expected: 2, actual: bytes.len() as usize })
        } else {
            Ok(Crc::Crc16(be_u16(bytes)))
        }
    } else if crc_type == 2 {
        if bytes.len() != 4 {
            Err(Error::InvalidCrcLength { expected: 4, actual: bytes.len() as usize })
        } else {
            Ok(Crc::Crc32c(be_u32(bytes)))
        }
    } else {
        Err(Error::InvalidCrcType(crc_type))
    }
}

/// Whether `e` is a possible failure of a streaming read whose modelled
/// outcome is `model`: the modelled failure, or, unless the reader fails
/// only by running short (`reliable`), one reported by the reader.
pub open spec fn stream_failure<T>(e: Error, model: Result<T, Error>, reliable: bool) -> bool {
    ||| model == Err::<T, Error>(e)
    ||| !reliable && e == Error::Cbor(crate::cbor::Error::UnexpectedEof)
    ||| !reliable && (e matches Error::Cbor(c) && c is Io)
}

impl Crc {
    /// CRC type code: 0 = none, 1 = CRC-16, 2 = CRC-32C.
    pub open spec fn spec_crc_type(self) -> u64 {
        match self {
            Crc::NoCrc => 0,
            Crc::Crc16(_) => 1,
            Crc::Crc32c(_) => 2,
        }
    }

    /// CRC value size in bytes.
    pub open spec fn spec_value_size(self) -> nat {
        match self {
            Crc::NoCrc => 0,
            Crc::Crc16(_) => 2,
            Crc::Crc32c(_) => 4,
        }
    }

    /// The big-endian bytes of the CRC value.
    pub open spec fn spec_value_bytes(self) -> Seq<u8> {
        match self {
            Crc::NoCrc => Seq::empty(),
            Crc::Crc16(v) => be_bytes_16(v as u64),
            Crc::Crc32c(v) => be_bytes_32(v as u64),
        }
    }

    /// The CRC over `data` with the same variant as `self`.
    pub open spec fn spec_computed(self, data: Seq<u8>) -> Crc {
        match self {
            Crc::NoCrc => Crc::NoCrc,
            Crc::Crc16(_) => Crc::Crc16(crc16(data)),
            Crc::Crc32c(_) => Crc::Crc32c(crc32c(data)),
        }
    }

    /// The block with its CRC field filled in: `block` holds the block's bytes
    /// before the CRC field.
    pub open spec fn spec_finalized(self, block: Seq<u8>) -> Crc {
        self.spec_computed(
            block + encode_head(MAJOR_BSTR, self.spec_value_size() as u64) + Seq::new(
                self.spec_value_size(),
                |i: int| 0u8,
            ),
        )
    }

    /// The CRC field that [`Crc::encode_and_finalize`] appends after the block
    /// bytes `block`: nothing without a CRC, else a byte string holding the
    /// CRC computed over the block with the value zeroed.
    pub open spec fn spec_crc_field(self, block: Seq<u8>) -> Seq<u8> {
        match self {
            Crc::NoCrc => Seq::empty(),
            _ => encode_head(MAJOR_BSTR, self.spec_value_size() as u64) + self.spec_finalized(
                block,
            ).spec_value_bytes(),
        }
    }

    /// Verifying this CRC against serialized block bytes whose CRC value starts at `off`.
    pub open spec fn spec_verify(self, bytes: Seq<u8>, off: int) -> Result<(), Error> {
        match self {
            Crc::NoCrc => Ok(()),
            _ => if off + self.spec_value_size() > bytes.len() {
                Err(Error::CrcOutOfBounds)
            } else if self.spec_computed(zeroed(bytes, off, self.spec_value_size())) == self {
                Ok(())
            } else {
                Err(Error::CrcMismatch)
            },
        }
    }

    /// Create a CRC-16 placeholder (value computed during encode).
    pub fn crc16() -> (r: Self)
        ensures
            r == Crc::Crc16(0),
    {
        Crc::Crc16(0)
    }

    /// Create a CRC-32C placeholder (value computed during encode).
    pub fn crc32c() -> (r: Self)
        ensures
            r == Crc::Crc32c(0),
    {
        Crc::Crc32c(0)
    }

    /// The placeholder CRC (value 0) of a CRC type code.
    pub open spec fn spec_placeholder(crc_type: u64) -> Result<Crc, Error> {
        if crc_type == 0 {
            Ok(Crc::NoCrc)
        } else if crc_type == 1 {
            Ok(Crc::Crc16(0))
        } else if crc_type == 2 {
            Ok(Crc::Crc32c(0))
        } else {
            Err(Error::InvalidCrcType(crc_type))
        }
    }

    /// Create a placeholder from a CRC type code (0, 1, or 2).
    pub fn placeholder(crc_type: u64) -> (r: Result<Self, Error>)
        ensures
            r == Self::spec_placeholder(crc_type),
    {
        match crc_type {
            0 => Ok(Crc::NoCrc),
            1 => Ok(Crc::Crc16(0)),
            2 => Ok(Crc::Crc32c(0)),
            _ => Err(Error::InvalidCrcType(crc_type)),
        }
    }

    #[inline]
    pub fn is_none(self) -> (r: bool)
        ensures
            r == (self == Crc::NoCrc),
    {
        match self {
            Crc::NoCrc => true,
            _ => false,
        }
    }

    /// CRC type code: 0 = none, 1 = CRC-16, 2 = CRC-32C.
    #[inline]
    pub fn crc_type(self) -> (r: u64)
        ensures
            r == self.spec_crc_type(),
    {
        match self {
            Crc::NoCrc => 0,
            Crc::Crc16(_) => 1,
            Crc::Crc32c(_) => 2,
        }
    }

    /// Compute CRC-16 (X-25 / IBM-SDLC) checksum.
    pub fn compute_crc16(data: &[u8]) -> (r: u16)
        ensures
            r == crc16(data@),
    {
        crc16_update_exec(0xFFFF, data) ^ 0xFFFF
    }

    /// Compute CRC-32C (Castagnoli) checksum.
    pub fn compute_crc32c(data: &[u8]) -> (r: u32)
        ensures
            r == crc32c(data@),
    {
        crc32c_update_exec(0xFFFF_FFFF, data) ^ 0xFFFF_FFFF
    }

    /// Compute a CRC of the given type over data.
    pub fn compute(crc_type: u64, data: &[u8]) -> (r: Result<Self, Error>)
        ensures
            r == (if crc_type == 0 {
                Ok(Crc::NoCrc)
            } else if crc_type == 1 {
                Ok(Crc::Crc16(crc16(data@)))
            } else if crc_type == 2 {
                Ok(Crc::Crc32c(crc32c(data@)))
            } else {
                Err(Error::InvalidCrcType(crc_type))
            }),
    {
        match crc_type {
            0 => Ok(Crc::NoCrc),
            1 => Ok(Crc::Crc16(Self::compute_crc16(data))),
            2 => Ok(Crc::Crc32c(Self::compute_crc32c(data))),
            _ => Err(Error::InvalidCrcType(crc_type)),
        }
    }

    /// Verify this CRC against serialized block bytes.
    ///
    /// Hashes in three segments (before CRC, zeroed CRC, after CRC)
    /// to avoid cloning the block bytes.
    pub fn verify(&self, block_bytes: &[u8], crc_data_offset: usize) -> (r: Result<(), Error>)
        ensures
            r == self.spec_verify(block_bytes@, crc_data_offset as int),
    {
        let len = block_bytes.len();
        match self {
            Crc::NoCrc => Ok(()),
            Crc::Crc16(expected) => {
                if crc_data_offset > len || len - crc_data_offset < 2 {
                    return Err(Error::CrcOutOfBounds);
                }
                let crc_end = crc_data_offset + 2;
                let head = &block_bytes[0..crc_data_offset];
                let zero = [0u8, 0u8];
                let tail = &block_bytes[crc_end..len];
                let c = crc16_update_exec(0xFFFF, head);
                let c = crc16_update_exec(c, &zero);
                let c = crc16_update_exec(c, tail);
                proof {
                    lemma_crc16_update_concat(0xFFFF, head@, zero@);
                    lemma_crc16_update_concat(0xFFFF, head@ + zero@, tail@);
                    assert(head@ + zero@ + tail@ == zeroed(block_bytes@, crc_data_offset as int, 2));
                }
                if c ^ 0xFFFF == *expected {
                    Ok(())
                } else {
                    Err(Error::CrcMismatch)
                }
            },
            Crc::Crc32c(expected) => {
                if crc_data_offset > len || len - crc_data_offset < 4 {
                    return Err(Error::CrcOutOfBounds);
                }
                let crc_end = crc_data_offset + 4;
                let head = &block_bytes[0..crc_data_offset];
                let zero = [0u8, 0u8, 0u8, 0u8];
                let tail = &block_bytes[crc_end..len];
                let c = crc32c_update_exec(0xFFFF_FFFF, head);
                let c = crc32c_update_exec(c, &zero);
                let c = crc32c_update_exec(c, tail);
                proof {
                    lemma_crc32c_update_concat(0xFFFF_FFFF, head@, zero@);
                    lemma_crc32c_update_concat(0xFFFF_FFFF, head@ + zero@, tail@);
                    assert(head@ + zero@ + tail@ == zeroed(block_bytes@, crc_data_offset as int, 4));
                }
                if c ^ 0xFFFF_FFFF == *expected {
                    Ok(())
                } else {
                    Err(Error::CrcMismatch)
                }
            },
        }
    }

    /// Parse a CRC value from raw bytes.
    pub fn from_bytes(crc_type: u64, bytes: &[u8]) -> (r: Result<Self, Error>)
        ensures
            r == spec_from_bytes(crc_type, bytes@),
    {
        if crc_type == 1 {
            if bytes.len() != 2 {
                return Err(Error::InvalidCrcLength { expected: 2, actual: bytes.len() });
            }
            Ok(Crc::Crc16(((bytes[0] as u16) << 8u16) | (bytes[1] as u16)))
        } else if crc_type == 2 {
            if bytes.len() != 4 {
                return Err(Error::InvalidCrcLength { expected: 4, actual: bytes.len() });
            }
            Ok(
                Crc::Crc32c(
                    ((bytes[0] as u32) << 24u32) | ((bytes[1] as u32) << 16u32) | ((bytes[2] as u32)
                        << 8u32) | (bytes[3] as u32),
                ),
            )
        } else {
            Err(Error::InvalidCrcType(crc_type))
        }
    }

    /// Decode a CRC value from a buffer-based CBOR decoder.
    pub fn decode_buf(dec: &mut Decoder<'_>, crc_type: u64) -> (r: Result<Self, Error>)
        ensures
            final(dec).data() == old(dec).data(),
            final(dec).pos() == old(dec).pos() + spec_read_bstr(old(dec).rest()).1,
            r == match spec_read_bstr(old(dec).rest()).0 {
                Ok((b, _)) => spec_from_bytes(crc_type, b),
                Err(e) => Err(Error::Cbor(e)),
            },
    {
        match dec.read_bstr() {
            Ok(bytes) => Self::from_bytes(crc_type, bytes),
            Err(e) => Err(Error::Cbor(e)),
        }
    }

    /// Decode a CRC value byte string from a streaming CBOR decoder.
    pub fn decode_stream<R: Read>(dec: &mut StreamDecoder<R>, crc_type: u64) -> (r: Result<
        Self,
        Error,
    >)
        ensures
            final(dec).peeked() is None,
            ({
                let (m, n) = spec_read_bstr(old(dec).stream());
                let model = match m {
                    Ok((b, _)) => spec_from_bytes(crc_type, b),
                    Err(e) => Err(Error::Cbor(e)),
                };
                &&& r matches Ok(c) ==> model == Ok::<Crc, Error>(c) && final(dec).consumed(
                    *old(dec),
                    n,
                )
                &&& r matches Err(e) ==> stream_failure(e, model, old(dec).spec_reader().reliable())
            }),
    {
        let bytes = match dec.read_bstr() {
            Ok(b) => b,
            Err(e) => {
                return Err(Error::Cbor(e));
            },
        };
        Self::from_bytes(crc_type, bytes.as_slice())
    }

    /// Write the CRC placeholder, compute over the block, and patch.
    ///
    /// Call after encoding all other block fields. `block_start` is the
    /// encoder position at the beginning of the block.
    pub fn encode_and_finalize(&self, enc: &mut Encoder, block_start: usize)
        requires
            block_start <= old(enc)@.len(),
        ensures
            final(enc)@ == old(enc)@ + self.spec_crc_field(old(enc)@.skip(block_start as int)),
    {
        let ghost block = old(enc)@.skip(block_start as int);
        match self {
            Crc::NoCrc => {
                assert(old(enc)@ + Seq::<u8>::empty() == old(enc)@);
            },
            Crc::Crc16(_) => {
                enc.write_bstr(&[0u8, 0u8]);
                let end = enc.position();
                let crc_data_pos = end - 2;
                let checksum = Self::compute_crc16(&enc.as_bytes()[block_start..end]);
                proof {
                    assert(enc@.subrange(block_start as int, end as int) == block + encode_head(
                        MAJOR_BSTR,
                        2,
                    ) + Seq::new(2, |i: int| 0u8));
                }
                enc.patch(crc_data_pos, &[(checksum >> 8u16) as u8, checksum as u8]);
                proof {
                    let v = checksum as u64;
                    assert((v >> 8u64) as u8 == (checksum >> 8u16) as u8 && v as u8 == checksum as u8)
                        by (bit_vector)
                        requires
                            v == checksum as u64,
                    ;
                    assert(enc@ == old(enc)@ + self.spec_crc_field(block));
                }
            },
            Crc::Crc32c(_) => {
                enc.write_bstr(&[0u8, 0u8, 0u8, 0u8]);
                let end = enc.position();
                let crc_data_pos = end - 4;
                let checksum = Self::compute_crc32c(&enc.as_bytes()[block_start..end]);
                proof {
                    assert(enc@.subrange(block_start as int, end as int) == block + encode_head(
                        MAJOR_BSTR,
                        4,
                    ) + Seq::new(4, |i: int| 0u8));
                }
                enc.patch(
                    crc_data_pos,
                    &[
                        (checksum >> 24u32) as u8,
                        (checksum >> 16u32) as u8,
                        (checksum >> 8u32) as u8,
                        checksum as u8,
                    ],
                );
                proof {
                    let v = checksum as u64;
                    assert((v >> 24u64) as u8 == (checksum >> 24u32) as u8 && (v >> 16u64) as u8 == (
                    checksum >> 16u32) as u8 && (v >> 8u64) as u8 == (checksum >> 8u32) as u8 && v as u8
                        == checksum as u8) by (bit_vector)
                        requires
                            v == checksum as u64,
                    ;
                    assert(enc@ == old(enc)@ + self.spec_crc_field(block));
                }
            },
        }
    }

    /// CRC value size in bytes (0 for None, 2 for CRC-16, 4 for CRC-32C).
    pub fn value_size(&self) -> (r: usize)
        ensures
            r == self.spec_value_size(),
    {
        match self {
            Crc::NoCrc => 0,
            Crc::Crc16(_) => 2,
            Crc::Crc32c(_) => 4,
        }
    }

    /// Write CRC value bytes into `buf`. Returns number of bytes written.
    pub fn write_value(&self, buf: &mut [u8]) -> (r: usize)
        requires
            old(buf)@.len() >= self.spec_value_size(),
        ensures
            r == self.spec_value_size(),
            final(buf)@ == self.spec_value_bytes() + old(buf)@.skip(r as int),
    {
        match self {
            Crc::NoCrc => {
                assert(old(buf)@.skip(0) == old(buf)@);
                0
            },
            Crc::Crc16(v) => {
                let v = *v;
                buf[0] = (v >> 8u16) as u8;
                buf[1] = v as u8;
                proof {
                    let w = v as u64;
                    assert((w >> 8u64) as u8 == (v >> 8u16) as u8 && w as u8 == v as u8)
                        by (bit_vector)
                        requires
                            w == v as u64,
                    ;
                    assert(buf@ == self.spec_value_bytes() + old(buf)@.skip(2));
                }
                2
            },
            Crc::Crc32c(v) => {
                let v = *v;
                buf[0] = (v >> 24u32) as u8;
                buf[1] = (v >> 16u32) as u8;
                buf[2] = (v >> 8u32) as u8;
                buf[3] = v as u8;
                proof {
                    let w = v as u64;
                    assert((w >> 24u64) as u8 == (v >> 24u32) as u8 && (w >> 16u64) as u8 == (v
                        >> 16u32) as u8 && (w >> 8u64) as u8 == (v >> 8u32) as u8 && w as u8
                        == v as u8) by (bit_vector)
                        requires
                            w == v as u64,
                    ;
                    assert(buf@ == self.spec_value_bytes() + old(buf)@.skip(4));
                }
                4
            },
        }
    }
}

/// Incremental CRC hasher for streaming computation: the CRC register of
/// the chosen variant.
pub enum CrcHasher {
    Crc16(u16),
    Crc32c(u32),
}

impl CrcHasher {
    /// Whether this hasher has been fed exactly `data` since it was created.
    pub open spec fn has_hashed(self, data: Seq<u8>) -> bool {
        match self {
            CrcHasher::Crc16(c) => c == crc16_update(0xFFFF, data),
            CrcHasher::Crc32c(c) => c == crc32c_update(0xFFFF_FFFF, data),
        }
    }

    /// The CRC variant this hasher computes.
    pub open spec fn spec_crc_type(self) -> u64 {
        match self {
            CrcHasher::Crc16(_) => 1,
            CrcHasher::Crc32c(_) => 2,
        }
    }

    /// The CRC the hasher gives for the bytes it has been fed.
    pub open spec fn spec_finalize(self) -> Crc {
        match self {
            CrcHasher::Crc16(c) => Crc::Crc16(c ^ 0xFFFF),
            CrcHasher::Crc32c(c) => Crc::Crc32c(c ^ 0xFFFF_FFFF),
        }
    }

    /// Create a hasher matching the given CRC type. Returns `None` for `Crc::NoCrc`.
    pub fn new(crc: &Crc) -> (r: Option<Self>)
        ensures
            *crc == Crc::NoCrc <==> r is None,
            r matches Some(h) ==> h.spec_crc_type() == crc.spec_crc_type() && h.has_hashed(
                Seq::empty(),
            ),
    {
        match crc {
            Crc::NoCrc => None,
            Crc::Crc16(_) => Some(CrcHasher::Crc16(0xFFFF)),
            Crc::Crc32c(_) => Some(CrcHasher::Crc32c(0xFFFF_FFFF)),
        }
    }

    pub fn update(&mut self, data: &[u8])
        ensures
            final(self).spec_crc_type() == old(self).spec_crc_type(),
            forall|prefix: Seq<u8>| #[trigger]
                old(self).has_hashed(prefix) ==> final(self).has_hashed(prefix + data@),
    {
        match self {
            CrcHasher::Crc16(c) => {
                *c = crc16_update_exec(*c, data);
            },
            CrcHasher::Crc32c(c) => {
                *c = crc32c_update_exec(*c, data);
            },
        }
        proof {
            assert forall|prefix: Seq<u8>| #[trigger]
                old(self).has_hashed(prefix) implies self.has_hashed(prefix + data@) by {
                match *old(self) {
                    CrcHasher::Crc16(_) => lemma_crc16_update_concat(0xFFFF, prefix, data@),
                    CrcHasher::Crc32c(_) => lemma_crc32c_update_concat(0xFFFF_FFFF, prefix, data@),
                }
            }
        }
    }

    pub fn finalize(self) -> (r: Crc)
        ensures
            r == self.spec_finalize(),
            forall|data: Seq<u8>| #[trigger]
                self.has_hashed(data) ==> r == (match self {
                    CrcHasher::Crc16(_) => Crc::Crc16(crc16(data)),
                    CrcHasher::Crc32c(_) => Crc::Crc32c(crc32c(data)),
                }),
    {
        match self {
            CrcHasher::Crc16(c) => Crc::Crc16(c ^ 0xFFFF),
            CrcHasher::Crc32c(c) => Crc::Crc32c(c ^ 0xFFFF_FFFF),
        }
    }
}

/// A CRC that [`Crc::encode_and_finalize`] writes after a block verifies
/// against the block's bytes: decoding its value and checking it against
/// the block bytes up to and including the CRC field succeeds.
pub proof fn lemma_finalized_crc_verifies(crc: Crc, block: Seq<u8>)
    requires
        crc != Crc::NoCrc,
    ensures
        ({
            let field = crc.spec_crc_field(block);
            let bytes = block + field;
            let head = encode_head(MAJOR_BSTR, crc.spec_value_size() as u64);
            &&& spec_from_bytes(crc.spec_crc_type(), field.skip(head.len() as int)) == Ok::<
                Crc,
                Error,
            >(crc.spec_finalized(block))
            &&& crc.spec_finalized(block).spec_verify(
                bytes,
                (block.len() + head.len()) as int,
            ) == Ok::<(), Error>(())
        }),
{
    let n = crc.spec_value_size();
    let head = encode_head(MAJOR_BSTR, n as u64);
    let fin = crc.spec_finalized(block);
    let field = crc.spec_crc_field(block);
    let bytes = block + field;
    assert(field.skip(head.len() as int) == fin.spec_value_bytes());
    match fin {
        Crc::Crc16(v) => {
            let w = v as u64;
            assert(((((w >> 8u64) as u8) as u16) << 8u16) | ((w as u8) as u16) == v) by (bit_vector)
                requires
                    w == v as u64,
            ;
        },
        Crc::Crc32c(v) => {
            let w = v as u64;
            assert(((((w >> 24u64) as u8) as u32) << 24u32) | ((((w >> 16u64) as u8) as u32) << 16u32)
                | ((((w >> 8u64) as u8) as u32) << 8u32) | ((w as u8) as u32) == v) by (bit_vector)
                requires
                    w == v as u64,
            ;
        },
        Crc::NoCrc => {},
    }
    assert(zeroed(bytes, (block.len() + head.len()) as int, n) == block + head + Seq::new(
        n,
        |i: int| 0u8,
    ));
}

/// Hashing a message in pieces gives the CRC of the whole message.
pub proof fn lemma_incremental_crc(a: Seq<u8>, b: Seq<u8>)
    ensures
        crc16_update(crc16_update(0xFFFF, a), b) ^ 0xFFFF == crc16(a + b),
        crc32c_update(crc32c_update(0xFFFF_FFFF, a), b) ^ 0xFFFF_FFFF == crc32c(a + b),
{
    lemma_crc16_update_concat(0xFFFF, a, b);
    lemma_crc32c_update_concat(0xFFFF_FFFF, a, b);
}

} // verus!
