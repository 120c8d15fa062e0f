use aqueduct::bpv7::{Crc, CrcHasher, Error};
use aqueduct::cbor::{Decoder, Encoder};

#[test]
fn crc16_check_value() {
    assert_eq!(Crc::compute_crc16(b"123456789"), 0x906E);
}

#[test]
fn crc32c_check_value() {
    assert_eq!(Crc::compute_crc32c(b"123456789"), 0xE3069283);
}

#[test]
fn crc_type_codes() {
    assert_eq!(Crc::NoCrc.crc_type(), 0);
    assert_eq!(Crc::crc16().crc_type(), 1);
    assert_eq!(Crc::crc32c().crc_type(), 2);
}

#[test]
fn compute_by_type() {
    let data = b"hello";
    let crc16 = Crc::compute(1, data).unwrap();
    assert_eq!(crc16, Crc::Crc16(Crc::compute_crc16(data)));

    let crc32 = Crc::compute(2, data).unwrap();
    assert_eq!(crc32, Crc::Crc32c(Crc::compute_crc32c(data)));

    assert_eq!(Crc::compute(0, data).unwrap(), Crc::NoCrc);
    assert!(Crc::compute(3, data).is_err());
}

#[test]
fn incremental_crc16() {
    let mut hasher = CrcHasher::new(&Crc::crc16()).unwrap();
    hasher.update(b"12345");
    hasher.update(b"6789");
    assert_eq!(hasher.finalize(), Crc::Crc16(0x906E));
}

#[test]
fn incremental_crc32c() {
    let mut hasher = CrcHasher::new(&Crc::crc32c()).unwrap();
    hasher.update(b"123");
    hasher.update(b"456");
    hasher.update(b"789");
    assert_eq!(hasher.finalize(), Crc::Crc32c(0xE3069283));
}

#[test]
fn decode_buf_crc16() {
    let mut enc = Encoder::new();
    enc.write_bstr(&0x906E_u16.to_be_bytes());
    let mut dec = Decoder::new(enc.as_bytes());
    let crc = Crc::decode_buf(&mut dec, 1).unwrap();
    assert_eq!(crc, Crc::Crc16(0x906E));
}

#[test]
fn decode_buf_crc32c() {
    let mut enc = Encoder::new();
    enc.write_bstr(&0xE3069283_u32.to_be_bytes());
    let mut dec = Decoder::new(enc.as_bytes());
    let crc = Crc::decode_buf(&mut dec, 2).unwrap();
    assert_eq!(crc, Crc::Crc32c(0xE3069283));
}

// -- Further cases ---------------------------------------------------------

#[test]
fn hasher_absent_for_no_crc() {
    assert!(CrcHasher::new(&Crc::NoCrc).is_none());
}

#[test]
fn placeholder_codes() {
    assert_eq!(Crc::placeholder(0), Ok(Crc::NoCrc));
    assert_eq!(Crc::placeholder(1), Ok(Crc::Crc16(0)));
    assert_eq!(Crc::placeholder(2), Ok(Crc::Crc32c(0)));
    assert_eq!(Crc::placeholder(9), Err(Error::InvalidCrcType(9)));
}

#[test]
fn from_bytes_checks_length_and_type() {
    assert_eq!(Crc::from_bytes(1, &[0x90, 0x6E]), Ok(Crc::Crc16(0x906E)));
    assert_eq!(
        Crc::from_bytes(1, &[1, 2, 3]),
        Err(Error::InvalidCrcLength { expected: 2, actual: 3 })
    );
    assert_eq!(
        Crc::from_bytes(2, &[1]),
        Err(Error::InvalidCrcLength { expected: 4, actual: 1 })
    );
    assert_eq!(Crc::from_bytes(0, &[]), Err(Error::InvalidCrcType(0)));
}

#[test]
fn encode_and_finalize_then_verify() {
    for crc in [Crc::crc16(), Crc::crc32c()] {
        let mut enc = Encoder::new();
        enc.write_uint(5);
        let start = enc.position();
        enc.write_array(2);
        enc.write_uint(1);
        crc.encode_and_finalize(&mut enc, start);
        let bytes = &enc.as_bytes()[start..];
        let size = crc.value_size();
        let stored = Crc::from_bytes(crc.crc_type(), &bytes[bytes.len() - size..]).unwrap();
        assert_eq!(stored.verify(bytes, bytes.len() - size), Ok(()));

        let mut corrupted = bytes.to_vec();
        corrupted[1] ^= 1;
        assert_eq!(stored.verify(&corrupted, bytes.len() - size), Err(Error::CrcMismatch));
        assert_eq!(stored.verify(bytes, bytes.len()), Err(Error::CrcOutOfBounds));
    }
}

#[test]
fn crc_none_verifies_anything() {
    assert_eq!(Crc::NoCrc.verify(&[1, 2, 3], 99), Ok(()));
    let mut enc = Encoder::new();
    Crc::NoCrc.encode_and_finalize(&mut enc, 0);
    assert!(enc.as_bytes().is_empty());
}

#[test]
fn write_value_big_endian() {
    let mut buf = [0u8; 5];
    assert_eq!(Crc::Crc16(0x1234).write_value(&mut buf), 2);
    assert_eq!(&buf[..2], &[0x12, 0x34]);
    assert_eq!(Crc::Crc32c(0x0102_0304).write_value(&mut buf), 4);
    assert_eq!(&buf[..4], &[1, 2, 3, 4]);
    assert_eq!(Crc::NoCrc.write_value(&mut buf), 0);
    assert_eq!(Crc::Crc16(0).value_size(), 2);
}
