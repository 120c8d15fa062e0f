use aqueduct::bpv7::bundle::{
    BlockData, BlockFlags, BundleFlags, CanonicalBlock, CreationTimestamp, FragmentInfo,
    PrimaryBlock, PAYLOAD_BLOCK_NUMBER, PAYLOAD_BLOCK_TYPE,
};
use aqueduct::bpv7::{BundleAge, Crc, Eid, Error, Extension, HopCount, PreviousNode};
use aqueduct::cbor::{Decoder, Encoder, ToCbor};

fn sample_primary() -> PrimaryBlock {
    PrimaryBlock {
        version: 7,
        flags: BundleFlags::from_bits(0),
        crc: Crc::NoCrc,
        dest_eid: Eid::Ipn {
            allocator_id: 0,
            node_number: 2,
            service_number: 1,
        },
        src_node_id: Eid::Ipn {
            allocator_id: 0,
            node_number: 1,
            service_number: 0,
        },
        rpt_eid: Eid::Null,
        creation_ts: CreationTimestamp { time: 1000, seq: 1 },
        lifetime: 3600,
        fragment: None,
    }
}

#[test]
fn roundtrip_extension_block() {
    let block = CanonicalBlock {
        block_type: 7,
        block_number: 2,
        flags: BlockFlags::from_bits(0),
        crc: Crc::NoCrc,
        data: BlockData::Inline(vec![0x18, 0x64]), // CBOR uint 100
    };
    let mut enc = Encoder::new();
    block.encode(&mut enc);
    let mut dec = Decoder::new(enc.as_bytes());
    let (decoded, is_payload) = CanonicalBlock::decode_buf(&mut dec).unwrap();
    assert!(!is_payload);
    assert_eq!(decoded, block);
}

#[test]
fn roundtrip_extension_with_crc() {
    let block = CanonicalBlock {
        block_type: 10,
        block_number: 3,
        flags: BlockFlags::from_bits(0),
        crc: Crc::crc16(),
        data: BlockData::Inline(vec![0x82, 0x1E, 0x05]),
    };
    let mut enc = Encoder::new();
    block.encode(&mut enc);
    let mut dec = Decoder::new(enc.as_bytes());
    let (decoded, is_payload) = CanonicalBlock::decode_buf(&mut dec).unwrap();
    assert!(!is_payload);
    decoded.verify_crc().unwrap();
}

#[test]
fn payload_block_detected() {
    let block = CanonicalBlock {
        block_type: PAYLOAD_BLOCK_TYPE,
        block_number: PAYLOAD_BLOCK_NUMBER,
        flags: BlockFlags::from_bits(0),
        crc: Crc::NoCrc,
        data: BlockData::Inline(vec![0xDE, 0xAD]),
    };
    assert!(block.is_payload());
}

#[test]
fn roundtrip_primary_no_crc() {
    let primary = sample_primary();
    let mut enc = Encoder::new();
    primary.encode(&mut enc);
    let mut dec = Decoder::new(enc.as_bytes());
    let decoded = PrimaryBlock::decode_buf(&mut dec).unwrap();
    assert_eq!(decoded, primary);
}

#[test]
fn roundtrip_primary_with_crc16() {
    let mut primary = sample_primary();
    primary.crc = Crc::crc16();
    let mut enc = Encoder::new();
    primary.encode(&mut enc);
    let mut dec = Decoder::new(enc.as_bytes());
    let decoded = PrimaryBlock::decode_buf(&mut dec).unwrap();
    decoded.verify_crc().unwrap();
}

#[test]
fn roundtrip_primary_with_fragment() {
    let mut primary = sample_primary();
    primary.flags = BundleFlags::from_bits(0x000001); // is_fragment
    primary.fragment = Some(FragmentInfo {
        offset: 0,
        total_adu_len: 1024,
    });
    let mut enc = Encoder::new();
    primary.encode(&mut enc);
    let mut dec = Decoder::new(enc.as_bytes());
    let decoded = PrimaryBlock::decode_buf(&mut dec).unwrap();
    assert_eq!(decoded, primary);
}

#[test]
fn validate_version() {
    let mut primary = sample_primary();
    primary.version = 6;
    assert!(primary.validate().is_err());
}

// -- Own tests ---------------------------------------------------------------

#[test]
fn primary_crc32c_roundtrip_verifies_and_keeps_fields() {
    let mut primary = sample_primary();
    primary.crc = Crc::crc32c();
    let mut enc = Encoder::new();
    primary.encode(&mut enc);
    let mut dec = Decoder::new(enc.as_bytes());
    let decoded = PrimaryBlock::decode_buf(&mut dec).unwrap();
    decoded.verify_crc().unwrap();
    assert_eq!(decoded.dest_eid, primary.dest_eid);
    assert_eq!(decoded.lifetime, 3600);
    assert_eq!(decoded.crc.crc_type(), 2);
    assert_ne!(decoded.crc, Crc::Crc32c(0));
}

#[test]
fn corrupted_extension_crc_is_detected() {
    let block = CanonicalBlock {
        block_type: 10,
        block_number: 3,
        flags: BlockFlags::from_bits(0),
        crc: Crc::crc16(),
        data: BlockData::Inline(vec![0x82, 0x1E, 0x05]),
    };
    let mut enc = Encoder::new();
    block.encode(&mut enc);
    let mut bytes = enc.into_bytes();
    let n = bytes.len();
    bytes[n - 1] ^= 0xFF;
    let mut dec = Decoder::new(&bytes);
    let (decoded, _) = CanonicalBlock::decode_buf(&mut dec).unwrap();
    assert_eq!(decoded.verify_crc(), Err(Error::CrcMismatch));
}

#[test]
fn validate_rejects_fragment_flag_without_fragment() {
    let mut primary = sample_primary();
    primary.flags = BundleFlags::from_bits(0x000001);
    assert_eq!(primary.validate(), Err(Error::InvalidFlags));
    assert_eq!(sample_primary().validate(), Ok(()));
}

#[test]
fn hop_count_data_roundtrip_and_exceeded() {
    let hc = HopCount { limit: 30, count: 5 };
    let data = hc.encode_data();
    assert_eq!(data, vec![0x82, 0x18, 0x1E, 0x05]);
    assert_eq!(HopCount::parse(&data).unwrap(), hc);
    assert!(!hc.exceeded());
    assert!(HopCount { limit: 10, count: 11 }.exceeded());
}

#[test]
fn hop_count_parse_errors() {
    assert_eq!(
        HopCount::parse(&[0x83, 0x01, 0x02, 0x03]),
        Err(Error::InvalidBlockLength {
            expected: "2",
            actual: 3
        })
    );
    assert_eq!(
        HopCount::parse(&[0x82, 0x19, 0x01, 0x00, 0x01]),
        Err(Error::IntegerOverflow)
    );
}

#[test]
fn previous_node_and_bundle_age_roundtrip() {
    let pn = PreviousNode {
        node_id: Eid::Dtn("//node7/".to_string()),
    };
    let data = pn.encode_data();
    assert_eq!(PreviousNode::parse(&data).unwrap(), pn);

    let age = BundleAge { millis: 123_456 };
    let data = age.encode_data();
    assert_eq!(BundleAge::parse(&data).unwrap(), age);
}

#[test]
fn parse_ext_checks_type_and_location() {
    let hc = HopCount { limit: 4, count: 1 };
    let block = CanonicalBlock::from_ext(2, BlockFlags::from_bits(0), Crc::NoCrc, &hc);
    assert_eq!(block.block_type, 10);
    assert_eq!(block.parse_ext::<HopCount>().unwrap(), hc);
    assert_eq!(
        block.parse_ext::<PreviousNode>(),
        Err(Error::BlockTypeMismatch {
            expected: 6,
            actual: 10
        })
    );
    let retained = CanonicalBlock {
        block_type: 10,
        block_number: 2,
        flags: BlockFlags::from_bits(0),
        crc: Crc::NoCrc,
        data: BlockData::Retained { offset: 0, len: 3 },
    };
    assert_eq!(retained.parse_ext::<HopCount>(), Err(Error::PayloadNotInline));
}
