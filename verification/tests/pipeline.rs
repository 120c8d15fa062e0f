use aqueduct::bpv7::bundle::{
    BlockData, BlockFlags, Bundle, BundleFlags, CanonicalBlock, CreationTimestamp, PrimaryBlock,
};
use aqueduct::bpv7::filter::builtin::{
    DestinationFilter, HopCountFilter, HopCountIncrementMutator, MaxPayloadSizeFilter,
    PreviousNodeMutator,
};
use aqueduct::bpv7::filter::traits::BundleMetadata;
use aqueduct::bpv7::{BundleFilter, BundleMutator, Crc, Eid, Error, FilterRejection, HopCount};
use aqueduct::bundle::{
    BlockEvent, BundleBuilder, BundleReader, BundleWriter, FilterChain, MemoryRetention,
    ReadResult, Retention,
};
use aqueduct::io::{Error as IoError, Read, Write};

fn primary(dest: Eid) -> PrimaryBlock {
    PrimaryBlock {
        version: 7,
        flags: BundleFlags::from_bits(0x000004),
        crc: Crc::NoCrc,
        dest_eid: dest,
        src_node_id: Eid::Null,
        rpt_eid: Eid::Null,
        creation_ts: CreationTimestamp { time: 0, seq: 0 },
        lifetime: 1000,
        fragment: None,
    }
}

fn block(block_type: u64, block_number: u64, data: BlockData) -> CanonicalBlock {
    CanonicalBlock {
        block_type,
        block_number,
        flags: BlockFlags::from_bits(0),
        crc: Crc::NoCrc,
        data,
    }
}

#[test]
fn bundle_validate_errors() {
    let dup = Bundle::from_parts(
        primary(Eid::Null),
        vec![
            block(7, 2, BlockData::Inline(vec![0x00])),
            block(1, 2, BlockData::Inline(vec![])),
        ],
    );
    assert_eq!(dup.validate(), Err(Error::DuplicateBlockNumber(2)));

    let none = Bundle::from_parts(primary(Eid::Null), vec![block(7, 2, BlockData::Inline(vec![0x00]))]);
    assert_eq!(none.validate(), Err(Error::InvalidPayloadCount(0)));

    let two = Bundle::from_parts(
        primary(Eid::Null),
        vec![
            block(1, 1, BlockData::Inline(vec![])),
            block(1, 3, BlockData::Inline(vec![])),
        ],
    );
    assert_eq!(two.validate(), Err(Error::InvalidPayloadCount(2)));

    let mut bad = primary(Eid::Null);
    bad.version = 6;
    let b = Bundle::from_parts(bad, vec![block(1, 1, BlockData::Inline(vec![]))]);
    assert_eq!(b.validate(), Err(Error::UnsupportedVersion(6)));
}

#[test]
fn bundle_lookup_and_encode() {
    let b = Bundle::from_parts(
        primary(Eid::Null),
        vec![
            block(7, 2, BlockData::Inline(vec![0x18, 0x64])),
            block(1, 1, BlockData::Inline(vec![0xAA, 0xBB, 0xCC])),
        ],
    );
    assert_eq!(b.payload_len(), 3);
    assert_eq!(b.payload_crc(), Crc::NoCrc);
    assert_eq!(b.block_by_type(7).unwrap().block_number, 2);
    assert_eq!(b.block_by_number(1).unwrap().block_type, 1);
    assert!(b.block_by_number(9).is_none());
    assert_eq!(b.extensions().len(), 1);
    let bytes = b.encode().unwrap();
    assert_eq!(bytes[0], 0x9F);
    assert_eq!(*bytes.last().unwrap(), 0xFF);

    let retained = Bundle::from_parts(
        primary(Eid::Null),
        vec![block(1, 1, BlockData::Retained { offset: 0, len: 4 })],
    );
    assert_eq!(retained.encode(), Err(Error::PayloadNotInline));
    assert_eq!(retained.payload_len(), 4);
}

#[test]
fn memory_retention_reader_bounds() {
    let mut m = MemoryRetention::new();
    m.write_all(b"abcdef").unwrap();
    let mut r = m.reader(2, 3).unwrap();
    let mut buf = [0u8; 8];
    let n = r.read(&mut buf).unwrap();
    assert_eq!(&buf[..n], b"cde");
    assert!(matches!(m.reader(4, 3), Err(IoError::UnexpectedEof)));
    assert!(matches!(m.reader(u64::MAX, 2), Err(IoError::UnexpectedEof)));
    m.discard().unwrap();
    assert!(m.as_bytes().is_empty());
}

#[test]
fn filter_rejection_message() {
    let r = FilterRejection {
        filter_name: "hop_count",
        reason: "hop limit exceeded".to_string(),
    };
    assert_eq!(r.message(), "hop_count: hop limit exceeded");
}

#[test]
fn builtin_filters_decide() {
    let p = primary(Eid::Ipn {
        allocator_id: 0,
        node_number: 5,
        service_number: 1,
    });
    let hc = CanonicalBlock::from_ext(
        2,
        BlockFlags::from_bits(0),
        Crc::NoCrc,
        &HopCount { limit: 3, count: 4 },
    );
    let exts = vec![hc];
    let meta = BundleMetadata {
        primary: &p,
        extensions: &exts,
        payload_len: 10,
    };
    assert!(MaxPayloadSizeFilter::new(10).check(&meta).is_ok());
    assert_eq!(
        MaxPayloadSizeFilter::new(9).check(&meta).unwrap_err().filter_name,
        "max_payload_size"
    );
    assert_eq!(HopCountFilter.check(&meta).unwrap_err().filter_name, "hop_count");
    assert!(DestinationFilter::new(vec![p.dest_eid.clone()]).check(&meta).is_ok());
    assert_eq!(
        DestinationFilter::new(vec![Eid::Null]).check(&meta).unwrap_err().filter_name,
        "destination"
    );
}

#[test]
fn builtin_mutators_change_blocks() {
    let mut p = primary(Eid::Null);
    let mut exts = vec![block(7, 5, BlockData::Inline(vec![0x00]))];
    assert!(HopCountIncrementMutator::new(9).mutate(&mut p, &mut exts));
    assert_eq!(exts.len(), 2);
    assert_eq!(exts[1].block_number, 6);
    assert_eq!(exts[1].parse_ext::<HopCount>().unwrap(), HopCount { limit: 9, count: 1 });
    assert!(HopCountIncrementMutator::new(9).mutate(&mut p, &mut exts));
    assert_eq!(exts[1].parse_ext::<HopCount>().unwrap(), HopCount { limit: 9, count: 2 });
    let node = Eid::Ipn {
        allocator_id: 0,
        node_number: 3,
        service_number: 0,
    };
    assert!(PreviousNodeMutator::new(node.clone()).mutate(&mut p, &mut exts));
    assert_eq!(exts.len(), 3);
    assert_eq!(exts[2].block_number, 7);
}

#[test]
fn filter_chain_first_rejection_and_emptiness() {
    let mut chain = FilterChain::new();
    assert!(chain.is_empty());
    chain.add_filter(MaxPayloadSizeFilter::new(1));
    chain.add_filter(HopCountFilter);
    assert!(!chain.is_empty());
    let p = primary(Eid::Null);
    let exts: Vec<CanonicalBlock> = Vec::new();
    let meta = BundleMetadata {
        primary: &p,
        extensions: &exts,
        payload_len: 2,
    };
    assert_eq!(chain.run_filters(&meta).unwrap_err().filter_name, "max_payload_size");
}

#[test]
fn writer_state_errors() {
    let mut buf = Vec::new();
    let mut w = BundleWriter::new().open(&mut buf);
    assert_eq!(
        w.begin_payload(BlockFlags::from_bits(0), Crc::NoCrc, 1),
        Err(Error::IncompleteRead)
    );
    assert_eq!(w.write_payload_data(b"x"), Err(Error::PayloadNotConsumed));
    w.write_primary(&primary(Eid::Null)).unwrap();
    assert_eq!(w.write_primary(&primary(Eid::Null)), Err(Error::IncompleteRead));
    w.begin_payload(BlockFlags::from_bits(0), Crc::NoCrc, 1).unwrap();
    assert!(matches!(w.finish(), Err(Error::PayloadNotConsumed)));
}

#[test]
fn writer_rejection_writes_nothing() {
    let mut buf = Vec::new();
    {
        let writer = BundleWriter::new().filter(MaxPayloadSizeFilter::new(2));
        let mut w = writer.open(&mut buf);
        w.write_primary(&primary(Eid::Null)).unwrap();
        let r = w.begin_payload(BlockFlags::from_bits(0), Crc::NoCrc, 3);
        assert!(matches!(r, Err(Error::FilterRejected(_))));
    }
    assert!(buf.is_empty());
}

#[test]
fn reader_rejection_leaves_retention_unwritten() {
    let bundle = BundleBuilder::new(Eid::Null, Eid::Null, 1000, b"0123456789", MemoryRetention::new())
        .unwrap()
        .build()
        .unwrap();
    let mut encoded = Vec::new();
    bundle.encode_to(&mut encoded).unwrap();
    let reader = BundleReader::new().filter(MaxPayloadSizeFilter::new(3));
    let mut session = reader.open(encoded.as_slice(), MemoryRetention::new());
    let r = session.next_block();
    assert!(matches!(r, Err(Error::FilterRejected(_))));
}

#[test]
fn reader_payload_must_be_walked() {
    let bundle = BundleBuilder::new(Eid::Null, Eid::Null, 1000, b"abc", MemoryRetention::new())
        .unwrap()
        .build()
        .unwrap();
    let mut encoded = Vec::new();
    bundle.encode_to(&mut encoded).unwrap();
    let reader = BundleReader::new();
    let mut session = reader.open(encoded.as_slice(), MemoryRetention::new());
    assert!(matches!(session.next_block(), Ok(Some(BlockEvent::Payload { len: 3 }))));
    assert_eq!(session.next_block(), Err(Error::PayloadNotConsumed));
    session.walk(3).unwrap();
    assert!(matches!(session.next_block(), Ok(None)));
    assert!(matches!(session.next_block(), Ok(None)));
}

#[test]
fn builder_records_extension_numbers() {
    let bundle = BundleBuilder::new(Eid::Null, Eid::Null, 5, b"p", MemoryRetention::new())
        .unwrap()
        .extension(HopCount { limit: 1, count: 0 }, BlockFlags::from_bits(0), Crc::NoCrc)
        .build()
        .unwrap();
    assert_eq!(bundle.blocks()[0].block_number, 2);
    assert_eq!(bundle.blocks()[1].block_number, 1);
    assert_eq!(bundle.primary().crc.crc_type(), 2);
    assert_eq!(bundle.retention().as_bytes(), b"p");
    let mut out = Vec::new();
    assert_eq!(bundle.payload(&mut out).unwrap(), 1);
    assert_eq!(out, b"p");
}

#[test]
fn read_result_rejected_on_garbage_filter() {
    let bundle = BundleBuilder::new(Eid::Null, Eid::Null, 1000, b"data", MemoryRetention::new())
        .unwrap()
        .build()
        .unwrap();
    let mut encoded = Vec::new();
    bundle.encode_to(&mut encoded).unwrap();
    let r = BundleReader::new()
        .filter(DestinationFilter::new(vec![Eid::Ipn {
            allocator_id: 0,
            node_number: 1,
            service_number: 1,
        }]))
        .read_from(encoded.as_slice(), MemoryRetention::new())
        .unwrap();
    match r {
        ReadResult::Rejected(rej) => assert_eq!(rej.filter_name, "destination"),
        ReadResult::Accepted(_) => panic!("expected rejection"),
    }
    let truncated = &encoded[..encoded.len() - 2];
    assert!(BundleReader::new()
        .read_from(truncated, MemoryRetention::new())
        .is_err());
}
