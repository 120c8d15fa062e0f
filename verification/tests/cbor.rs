use aqueduct::cbor::{Decoder, Encoder, Error, StreamDecoder, StreamEncoder, UintOrString, UintOrTstr};
use aqueduct::io::Read;

#[test]
fn roundtrip_uint() {
    for v in [
        0u64,
        1,
        23,
        24,
        255,
        256,
        65535,
        65536,
        0xFFFF_FFFF,
        u64::MAX,
    ] {
        let mut enc = Encoder::new();
        enc.write_uint(v);
        let mut dec = Decoder::new(enc.as_bytes());
        assert_eq!(dec.read_uint().unwrap(), v, "failed for {v}");
    }
}

#[test]
fn roundtrip_bstr() {
    let data = b"hello world";
    let mut enc = Encoder::new();
    enc.write_bstr(data);
    let mut dec = Decoder::new(enc.as_bytes());
    assert_eq!(dec.read_bstr().unwrap(), data);
}

#[test]
fn roundtrip_tstr() {
    let s = "dtn://node1/svc";
    let mut enc = Encoder::new();
    enc.write_tstr(s);
    let mut dec = Decoder::new(enc.as_bytes());
    assert_eq!(dec.read_tstr().unwrap(), s);
}

#[test]
fn roundtrip_array() {
    let mut enc = Encoder::new();
    enc.write_array(3);
    enc.write_uint(1);
    enc.write_uint(2);
    enc.write_uint(3);
    let mut dec = Decoder::new(enc.as_bytes());
    assert_eq!(dec.read_array_len().unwrap(), 3);
    assert_eq!(dec.read_uint().unwrap(), 1);
    assert_eq!(dec.read_uint().unwrap(), 2);
    assert_eq!(dec.read_uint().unwrap(), 3);
}

#[test]
fn indefinite_array() {
    let mut enc = Encoder::new();
    enc.write_indefinite_array();
    enc.write_uint(42);
    enc.write_break();
    let mut dec = Decoder::new(enc.as_bytes());
    dec.read_indefinite_array_start().unwrap();
    assert!(!dec.is_break().unwrap());
    assert_eq!(dec.read_uint().unwrap(), 42);
    assert!(dec.is_break().unwrap());
    dec.read_break().unwrap();
}

#[test]
fn stream_roundtrip_uint() {
    for v in [
        0u64,
        1,
        23,
        24,
        255,
        256,
        65535,
        65536,
        0xFFFF_FFFF,
        u64::MAX,
    ] {
        let mut buf = Vec::new();
        let mut enc = StreamEncoder::new(&mut buf);
        enc.write_uint(v).unwrap();
        drop(enc);

        let mut dec = StreamDecoder::new(buf.as_slice());
        assert_eq!(dec.read_uint().unwrap(), v, "failed for {v}");
    }
}

#[test]
fn stream_roundtrip_bstr() {
    let data = b"hello world";
    let mut buf = Vec::new();
    let mut enc = StreamEncoder::new(&mut buf);
    enc.write_bstr(data).unwrap();
    drop(enc);

    let mut dec = StreamDecoder::new(buf.as_slice());
    assert_eq!(dec.read_bstr().unwrap(), data);
}

#[test]
fn stream_roundtrip_tstr() {
    let s = "dtn://node1/svc";
    let mut buf = Vec::new();
    let mut enc = StreamEncoder::new(&mut buf);
    enc.write_tstr(s).unwrap();
    drop(enc);

    let mut dec = StreamDecoder::new(buf.as_slice());
    assert_eq!(dec.read_tstr().unwrap(), s);
}

#[test]
fn stream_indefinite_array() {
    let mut buf = Vec::new();
    let mut enc = StreamEncoder::new(&mut buf);
    enc.write_indefinite_array().unwrap();
    enc.write_uint(42).unwrap();
    enc.write_break().unwrap();
    drop(enc);

    let mut dec = StreamDecoder::new(buf.as_slice());
    dec.read_indefinite_array_start().unwrap();
    assert!(!dec.is_break().unwrap());
    assert_eq!(dec.read_uint().unwrap(), 42);
    assert!(dec.is_break().unwrap());
    dec.read_break().unwrap();
}

#[test]
fn stream_bstr_header_then_manual_read() {
    let payload = b"streaming payload data";
    let mut buf = Vec::new();
    let mut enc = StreamEncoder::new(&mut buf);
    enc.write_bstr(payload).unwrap();
    drop(enc);

    let mut dec = StreamDecoder::new(buf.as_slice());
    let len = dec.read_bstr_header().unwrap();
    assert_eq!(len, payload.len() as u64);

    let mut data = vec![0u8; len as usize];
    dec.inner().read_exact(&mut data).unwrap();
    dec.advance(len);
    assert_eq!(data, payload);
}

#[test]
fn stream_skip() {
    let mut buf = Vec::new();
    let mut enc = StreamEncoder::new(&mut buf);
    enc.write_bstr(b"skip me").unwrap();
    enc.write_uint(99).unwrap();
    drop(enc);

    let mut dec = StreamDecoder::new(buf.as_slice());
    let len = dec.read_bstr_header().unwrap();
    dec.skip(len).unwrap();
    assert_eq!(dec.read_uint().unwrap(), 99);
}

#[test]
fn cross_format_buffer_encode_stream_decode() {
    let mut enc = Encoder::new();
    enc.write_array(3);
    enc.write_uint(1);
    enc.write_tstr("hello");
    enc.write_bstr(b"\x00\x01\x02");
    let bytes = enc.into_bytes();

    let mut dec = StreamDecoder::new(bytes.as_slice());
    assert_eq!(dec.read_array_len().unwrap(), 3);
    assert_eq!(dec.read_uint().unwrap(), 1);
    assert_eq!(dec.read_tstr().unwrap(), "hello");
    assert_eq!(dec.read_bstr().unwrap(), b"\x00\x01\x02");
}

#[test]
fn cross_format_stream_encode_buffer_decode() {
    let mut buf = Vec::new();
    let mut enc = StreamEncoder::new(&mut buf);
    enc.write_array(2).unwrap();
    enc.write_uint(42).unwrap();
    enc.write_tstr("test").unwrap();
    drop(enc);

    let mut dec = Decoder::new(&buf);
    assert_eq!(dec.read_array_len().unwrap(), 2);
    assert_eq!(dec.read_uint().unwrap(), 42);
    assert_eq!(dec.read_tstr().unwrap(), "test");
}

#[test]
fn stream_position_tracking() {
    let mut buf = Vec::new();
    let mut enc = StreamEncoder::new(&mut buf);
    assert_eq!(enc.position(), 0);
    enc.write_uint(1).unwrap();
    assert_eq!(enc.position(), 1);
    enc.write_bstr(b"hello").unwrap();
    let end_pos = enc.position();
    drop(enc);

    let mut dec = StreamDecoder::new(buf.as_slice());
    assert_eq!(dec.position(), 0);
    dec.read_uint().unwrap();
    assert_eq!(dec.position(), 1);
    dec.read_bstr().unwrap();
    assert_eq!(dec.position(), end_pos);
}

// -- Exact encodings and error cases -----------------------------------------

#[test]
fn uint_heads_use_shortest_form() {
    let cases: [(u64, &[u8]); 6] = [
        (0, &[0x00]),
        (23, &[0x17]),
        (24, &[0x18, 0x18]),
        (256, &[0x19, 0x01, 0x00]),
        (65536, &[0x1A, 0x00, 0x01, 0x00, 0x00]),
        (0x1_0000_0000, &[0x1B, 0, 0, 0, 1, 0, 0, 0, 0]),
    ];
    for (v, bytes) in cases {
        let mut enc = Encoder::new();
        enc.write_uint(v);
        assert_eq!(enc.as_bytes(), bytes, "encoding of {v}");
    }
}

#[test]
fn read_uint_reports_wrong_type() {
    let mut dec = Decoder::new(&[0x43, 1, 2, 3]);
    assert_eq!(
        dec.read_uint(),
        Err(Error::UnexpectedCborType { expected: "uint", actual: 0x43 })
    );
    assert_eq!(dec.position(), 1);
}

#[test]
fn read_uint_reports_eof_and_reserved_values() {
    assert_eq!(Decoder::new(&[]).read_uint(), Err(Error::UnexpectedEof));
    assert_eq!(Decoder::new(&[0x19, 0x01]).read_uint(), Err(Error::UnexpectedEof));
    assert_eq!(Decoder::new(&[0x1C]).read_uint(), Err(Error::InvalidCbor));
}

#[test]
fn read_bstr_reports_truncated_content() {
    let mut dec = Decoder::new(&[0x45, 1, 2]);
    assert_eq!(dec.read_bstr(), Err(Error::UnexpectedEof));
}

#[test]
fn read_tstr_rejects_invalid_utf8() {
    let mut dec = Decoder::new(&[0x62, 0xC3, 0x28]);
    assert_eq!(dec.read_tstr(), Err(Error::InvalidUtf8));
}

#[test]
fn read_array_len_rejects_indefinite() {
    let mut dec = Decoder::new(&[0x9F]);
    assert_eq!(
        dec.read_array_len(),
        Err(Error::UnexpectedCborType { expected: "definite array", actual: 0x9F })
    );
}

#[test]
fn bstr_with_offset_points_at_content() {
    let mut enc = Encoder::new();
    enc.write_uint(300);
    enc.write_bstr(b"abc");
    let mut dec = Decoder::new(enc.as_bytes());
    dec.read_uint().unwrap();
    let (data, offset) = dec.read_bstr_with_offset().unwrap();
    assert_eq!(data, b"abc");
    assert_eq!(offset, 4);
}

#[test]
fn uint_or_tstr_both_ways() {
    let mut enc = Encoder::new();
    enc.write_uint(7);
    enc.write_tstr("x");
    enc.write_bstr(b"");
    let mut dec = Decoder::new(enc.as_bytes());
    assert!(matches!(dec.read_uint_or_tstr(), Ok(UintOrTstr::Uint(7))));
    assert!(matches!(dec.read_uint_or_tstr(), Ok(UintOrTstr::Tstr("x"))));
    assert_eq!(
        dec.read_uint_or_tstr().err(),
        Some(Error::UnexpectedCborType { expected: "uint or tstr", actual: 0x40 })
    );

    let bytes = enc.into_bytes();
    let mut sdec = StreamDecoder::new(bytes.as_slice());
    assert!(matches!(sdec.read_uint_or_tstr(), Ok(UintOrString::Uint(7))));
    match sdec.read_uint_or_tstr() {
        Ok(UintOrString::Tstr(s)) => assert_eq!(s, "x"),
        _ => panic!("expected a text string"),
    }
}

#[test]
fn patch_overwrites_in_place() {
    let mut enc = Encoder::with_capacity(8);
    enc.write_bstr(&[0, 0, 0]);
    enc.patch(1, &[7, 8]);
    assert_eq!(enc.as_bytes(), &[0x43, 7, 8, 0]);
}

#[test]
fn stream_reports_eof_on_short_input() {
    let mut dec = StreamDecoder::new(&[0x19u8, 0x01][..]);
    assert_eq!(dec.read_uint(), Err(Error::UnexpectedEof));
}
