use aqueduct::bpv7::bundle::{BlockData, BlockFlags, BundleFlags, CanonicalBlock, CreationTimestamp, PrimaryBlock};
use aqueduct::bpv7::filter::builtin::{MaxPayloadSizeFilter, PreviousNodeMutator};
use aqueduct::bpv7::{Crc, Eid, Error};
use aqueduct::bundle::io::ingest::{
    encode_headers, parse_buffered, parse_metadata, HeaderBuffer, IngestPlan, HEADER_BUF_SIZE,
};
use aqueduct::bundle::retention::{FlashLayout, FlushStep, MultipartUpload, NoopRetention, UploadStep, PART_SIZE};
use aqueduct::bundle::{BundleBuilder, BundleReader, BundleWriter, MemoryRetention, ReadResult, Retention};
use aqueduct::io::{OutputBuffer, ReadBudget, Write};

fn primary() -> PrimaryBlock {
    PrimaryBlock {
        version: 7,
        flags: BundleFlags::from_bits(0x000004),
        crc: Crc::NoCrc,
        dest_eid: Eid::Ipn { allocator_id: 0, node_number: 2, service_number: 1 },
        src_node_id: Eid::Null,
        rpt_eid: Eid::Null,
        creation_ts: CreationTimestamp { time: 0, seq: 0 },
        lifetime: 1000,
        fragment: None,
    }
}

fn extension(number: u64, data: &[u8]) -> CanonicalBlock {
    CanonicalBlock {
        block_type: 192,
        block_number: number,
        flags: BlockFlags::from_bits(0),
        crc: Crc::NoCrc,
        data: BlockData::Inline(data.to_vec()),
    }
}

fn encoded_bundle(payload: &[u8], crc: Crc) -> Vec<u8> {
    let mut buf = Vec::new();
    let mut w = BundleWriter::new().open(&mut buf);
    w.write_primary(&primary()).unwrap();
    w.write_extension(&extension(2, b"ab")).unwrap();
    w.begin_payload(BlockFlags::from_bits(0), crc, payload.len() as u64).unwrap();
    w.write_payload_data(payload).unwrap();
    w.end_payload().unwrap();
    w.finish().unwrap();
    buf
}

#[test]
fn header_buffer_splits_at_capacity() {
    let mut h = HeaderBuffer::new();
    assert_eq!(h.total(), 0);
    h.push_chunk(&vec![1u8; HEADER_BUF_SIZE - 10]);
    assert!(!h.is_full());
    h.push_chunk(&[2u8; 25]);
    assert!(h.is_full());
    assert_eq!(h.header().len(), HEADER_BUF_SIZE);
    assert_eq!(h.overflow(), &[2u8; 15][..]);
    assert_eq!(h.total(), (HEADER_BUF_SIZE + 15) as u64);
    h.push_chunk(&[3u8; 2]);
    assert_eq!(h.overflow().len(), 17);
}

#[test]
fn header_buffer_exactly_full_waits_for_next_chunk() {
    let mut h = HeaderBuffer::new();
    h.push_chunk(&vec![0u8; HEADER_BUF_SIZE]);
    assert!(!h.is_full());
    h.push_chunk(&[9u8]);
    assert!(h.is_full());
    assert_eq!(h.overflow(), &[9u8][..]);
}

#[test]
fn parse_metadata_of_written_bundle() {
    let bytes = encoded_bundle(b"payload!", Crc::crc32c());
    let m = parse_metadata(&bytes).unwrap();
    assert_eq!(m.primary.dest_eid, Eid::Ipn { allocator_id: 0, node_number: 2, service_number: 1 });
    assert_eq!(m.extensions.len(), 1);
    assert_eq!(m.extensions[0].block_number, 2);
    assert_eq!(m.payload_len, 8);
    assert_eq!(m.payload_crc_type, 2);
    assert_eq!(m.payload_flags, 0);
    assert_eq!(&bytes[m.payload_data_offset..m.payload_data_offset + 8], b"payload!");
}

#[test]
fn parse_metadata_truncated_fails() {
    let bytes = encoded_bundle(b"payload!", Crc::NoCrc);
    assert!(parse_metadata(&bytes[..5]).is_err());
    assert!(parse_metadata(&[]).is_err());
}

#[test]
fn encode_headers_exact_bytes() {
    let p = primary();
    let exts = vec![extension(2, b"ab")];
    let out = encode_headers(&p, &exts, 0, 0, 3);
    let bytes = encoded_bundle(b"xyz", Crc::NoCrc);
    // The headers are the bundle's bytes up to the payload data.
    assert_eq!(&out[..], &bytes[..out.len()]);
    assert_eq!(&bytes[out.len()..out.len() + 3], b"xyz");
    assert_eq!(&out[out.len() - 6..], &[0x85, 0x01, 0x01, 0x00, 0x00, 0x43][..]);
}

#[test]
fn plan_ingest_decisions() {
    let bytes = encoded_bundle(b"0123456789", Crc::NoCrc);
    let empty = HeaderBuffer::new();
    assert!(matches!(BundleReader::new().plan_ingest(&empty), Err(Error::EmptyRetention)));

    let mut h = HeaderBuffer::new();
    h.push_chunk(&bytes);
    assert!(matches!(BundleReader::new().plan_ingest(&h), Ok(IngestPlan::Direct)));

    let rejecting = BundleReader::new().filter(MaxPayloadSizeFilter::new(3));
    assert!(matches!(rejecting.plan_ingest(&h), Ok(IngestPlan::Rejected(_))));

    let passing = BundleReader::new().filter(MaxPayloadSizeFilter::new(100));
    let Ok(IngestPlan::Filtered(plan)) = passing.plan_ingest(&h) else {
        panic!("expected a filtered plan");
    };
    assert!(plan.prefix.is_empty());
    assert_eq!(plan.resume, 0);
    assert_eq!(plan.payload_len, 10);
    assert_eq!(&bytes[plan.payload_offset as usize..plan.payload_offset as usize + 10], b"0123456789");
}

#[test]
fn plan_ingest_mutated_headers_are_reencoded() {
    let bytes = encoded_bundle(b"0123456789", Crc::NoCrc);
    let mut h = HeaderBuffer::new();
    h.push_chunk(&bytes);
    let reader = BundleReader::new().mutator(PreviousNodeMutator::new(Eid::Ipn { allocator_id: 0, node_number: 9, service_number: 0 }));
    let Ok(IngestPlan::Filtered(plan)) = reader.plan_ingest(&h) else {
        panic!("expected a filtered plan");
    };
    assert!(!plan.prefix.is_empty());
    assert_eq!(plan.payload_offset, plan.prefix.len() as u64);
    assert_eq!(plan.extensions.len(), 2);
    // The retention gets the new headers, then the payload data on.
    let mut stored = plan.prefix.clone();
    stored.extend_from_slice(&bytes[plan.resume..]);
    let n = bytes.len() as u64;
    assert_eq!(plan.crc_tail(n), Some((plan.payload_offset + 10, stored.len() as u64 - plan.payload_offset - 10)));
    let mut retention = MemoryRetention::new();
    retention.write_all(&stored).unwrap();
    let bundle = plan.into_bundle(Crc::NoCrc, retention);
    let mut data = Vec::new();
    bundle.payload(&mut data).unwrap();
    assert_eq!(data, b"0123456789");
    assert_eq!(bundle.blocks().len(), 3);
}

#[test]
fn crc_tail_when_retention_ends_early() {
    let bytes = encoded_bundle(b"0123456789", Crc::crc16());
    let mut h = HeaderBuffer::new();
    h.push_chunk(&bytes);
    let reader = BundleReader::new().filter(MaxPayloadSizeFilter::new(100));
    let Ok(IngestPlan::Filtered(plan)) = reader.plan_ingest(&h) else {
        panic!("expected a filtered plan");
    };
    assert_eq!(plan.crc_tail(3), None);
    let (start, len) = plan.crc_tail(bytes.len() as u64).unwrap();
    assert_eq!(start, plan.payload_offset + 10);
    // The CRC field (3 bytes) and the break byte follow the payload data.
    assert_eq!(len, 4);
}

#[test]
fn parse_buffered_reads_whole_bundle() {
    let bytes = encoded_bundle(b"abc", Crc::crc32c());
    let bundle = parse_buffered(&bytes).unwrap();
    assert_eq!(bundle.blocks().len(), 2);
    assert_eq!(bundle.payload_len(), 3);
    let mut retention = MemoryRetention::new();
    retention.write_all(&bytes).unwrap();
    let bundle = bundle.with_retention(retention);
    let mut data = Vec::new();
    bundle.payload(&mut data).unwrap();
    assert_eq!(data, b"abc");
    assert!(parse_buffered(&bytes[..bytes.len() - 1]).is_err());
}

#[test]
fn noop_retention_keeps_nothing() {
    let mut r = NoopRetention::new();
    r.write_all(b"abc").unwrap();
    r.flush().unwrap();
    assert!(r.reader(0, 1).is_err());
    assert!(r.discard().is_ok());
}

#[test]
fn output_buffer_hands_out_each_byte_once() {
    let mut w = BundleWriter::new().open(OutputBuffer::new());
    w.write_primary(&primary()).unwrap();
    let first = w.take_output();
    assert!(!first.is_empty());
    assert!(w.take_output().is_empty());
    w.begin_payload(BlockFlags::from_bits(0), Crc::NoCrc, 2).unwrap();
    w.write_payload_data(b"hi").unwrap();
    w.end_payload().unwrap();
    let second = w.take_output();
    let mut rest = w.finish().unwrap();
    let third = rest.take();
    assert_eq!(third, vec![0xFF]);
    let mut all = first;
    all.extend_from_slice(&second);
    all.extend_from_slice(&third);
    let mut direct = Vec::new();
    let mut d = BundleWriter::new().open(&mut direct);
    d.write_primary(&primary()).unwrap();
    d.begin_payload(BlockFlags::from_bits(0), Crc::NoCrc, 2).unwrap();
    d.write_payload_data(b"hi").unwrap();
    d.end_payload().unwrap();
    d.finish().unwrap();
    assert_eq!(all, direct);
}

#[test]
fn multipart_upload_steps() {
    let mut u = MultipartUpload::new();
    assert_eq!(u.upload_step(), UploadStep::Idle);
    assert_eq!(u.flush_step(), FlushStep::PutObject);
    assert!(!u.unfinished());
    assert!(!u.write(b"small"));
    assert!(u.unfinished());
    assert_eq!(u.upload_step(), UploadStep::CreateUpload);
    assert!(u.write(&vec![0u8; PART_SIZE]));
    u.upload_started(String::from("id-1"));
    assert_eq!(u.upload_step(), UploadStep::UploadPart(1));
    u.part_uploaded(String::from("etag-1"));
    assert!(u.buffered().is_empty());
    assert_eq!(u.parts(), &[(1, String::from("etag-1"))][..]);
    assert_eq!(u.flush_step(), FlushStep::Complete);
    u.write(b"tail");
    assert_eq!(u.flush_step(), FlushStep::UploadPart(2));
    assert_eq!(u.take_upload_id(), Some(String::from("id-1")));
    assert_eq!(u.upload_id(), None);
    u.upload_completed();
    assert!(!u.unfinished());
    u.discarded();
    assert!(u.parts().is_empty());
}

#[test]
fn flash_layout_aligns_writes() {
    let mut f = FlashLayout::new(0x1000, 4096, 4);
    assert_eq!(f.write_position(), Some(0x1000));
    f.buffer(&[1, 2, 3, 4, 5, 6]);
    assert_eq!(f.ready_len(), 4);
    f.written(4);
    assert_eq!(f.buffered(), &[5, 6][..]);
    assert_eq!(f.write_position(), Some(0x1004));
    f.pad();
    assert_eq!(f.buffered(), &[5, 6, 0xFF, 0xFF][..]);
    f.written(4);
    assert_eq!(f.erase_range(), Ok(Some((0x1000, 0x2000))));
    f.erased();
    assert_eq!(f.erase_range(), Ok(None));
    let g = FlashLayout::new(u32::MAX, 16, 1);
    let mut g2 = g;
    g2.buffer(&[1]);
    g2.written(1);
    assert_eq!(g2.write_position(), None);
    assert_eq!(g2.erase_range(), Err(()));
}

#[test]
fn read_budget_limits_reads() {
    let mut b = ReadBudget::new(5);
    assert_eq!(b.grant(8), 5);
    assert_eq!(b.grant(3), 3);
    assert!(b.fits(5));
    assert!(!b.fits(6));
    b.consume(3);
    assert_eq!(b.remaining(), 2);
    assert_eq!(b.grant(8), 2);
}

#[test]
fn retention_reader_result_accepted_after_ingest() {
    let bytes = encoded_bundle(b"data", Crc::NoCrc);
    let r = BundleReader::new().read_from(bytes.as_slice(), MemoryRetention::new()).unwrap();
    assert!(matches!(r, ReadResult::Accepted(_)));
}

#[test]
fn read_gives_back_written_bundle() {
    let mut ext = extension(2, b"hello");
    ext.crc = Crc::crc16();
    let mut p = primary();
    p.crc = Crc::crc32c();
    let mut bytes = Vec::new();
    let mut w = BundleWriter::new().open(&mut bytes);
    w.write_primary(&p).unwrap();
    w.write_extension(&ext).unwrap();
    w.begin_payload(BlockFlags::from_bits(0), Crc::crc32c(), 4).unwrap();
    w.write_payload_data(b"data").unwrap();
    w.end_payload().unwrap();
    w.finish().unwrap();

    let ReadResult::Accepted(bundle) = BundleReader::new().read_from(bytes.as_slice(), MemoryRetention::new()).unwrap()
    else {
        panic!("expected accepted");
    };
    // The primary block comes back with its CRC computed at writing.
    assert_eq!(bundle.primary().dest_eid, p.dest_eid);
    assert!(matches!(bundle.primary().crc, Crc::Crc32c(v) if v != 0));
    // The extension block comes back with its data and its CRC value.
    let blocks = bundle.blocks();
    assert_eq!(blocks.len(), 2);
    assert_eq!(blocks[0].data, BlockData::Inline(b"hello".to_vec()));
    assert!(matches!(blocks[0].crc, Crc::Crc16(v) if v != 0));
    // The payload's data is where the read-back block points into the stream.
    let (offset, len) = blocks[1].retained_range().unwrap();
    assert_eq!(&bytes[offset as usize..(offset + len) as usize], b"data");
    assert!(matches!(blocks[1].crc, Crc::Crc32c(v) if v != 0));
    assert_eq!(bundle.retention().as_bytes(), &bytes[..]);
    // Streaming the payload out of the retention gives the written data.
    let mut out = Vec::new();
    assert_eq!(bundle.payload(&mut out).unwrap(), 4);
    assert_eq!(out, b"data".to_vec());
}

#[test]
fn read_payload_yields_exactly_the_payload() {
    let bytes = encoded_bundle(b"0123456789", Crc::crc16());
    let mut session = BundleReader::new().open(bytes.as_slice(), MemoryRetention::new());
    let mut buf = [0u8; 4];
    assert_eq!(session.read_payload(&mut buf), Err(Error::PayloadNotConsumed));
    let mut got = Vec::new();
    loop {
        match session.next_block().unwrap() {
            Some(aqueduct::bundle::BlockEvent::Payload { len }) => {
                assert_eq!(len, 10);
                loop {
                    let n = session.read_payload(&mut buf).unwrap();
                    if n == 0 {
                        break;
                    }
                    got.extend_from_slice(&buf[..n]);
                }
            }
            Some(_) => {}
            None => break,
        }
    }
    assert_eq!(got, b"0123456789");
    let ReadResult::Accepted(bundle) = session.into_bundle().unwrap() else {
        panic!("expected accepted");
    };
    assert_eq!(bundle.payload_len(), 10);
}

#[test]
fn write_to_with_filters() {
    let bundle = BundleBuilder::new(Eid::Null, Eid::Null, 1000, b"0123456789", MemoryRetention::new())
        .unwrap()
        .build()
        .unwrap();
    let mut plain = Vec::new();
    bundle.encode_to(&mut plain).unwrap();

    // A filter that passes changes nothing.
    let passing = BundleWriter::new().filter(MaxPayloadSizeFilter::new(100));
    let out = passing.write_to(&bundle, Vec::new()).unwrap();
    assert_eq!(out, plain);

    // A filter that rejects answers with the rejection.
    let rejecting = BundleWriter::new().filter(MaxPayloadSizeFilter::new(3));
    assert!(matches!(rejecting.write_to(&bundle, Vec::new()), Err(Error::FilterRejected(_))));

    // A mutator adds its block before the payload block.
    let node = Eid::Ipn { allocator_id: 0, node_number: 7, service_number: 0 };
    let mutating = BundleWriter::new().mutator(PreviousNodeMutator::new(node.clone()));
    let out = mutating.write_to(&bundle, Vec::new()).unwrap();
    let ReadResult::Accepted(back) = BundleReader::new().read_from(out.as_slice(), MemoryRetention::new()).unwrap()
    else {
        panic!("expected accepted");
    };
    assert_eq!(back.blocks().len(), 2);
    assert_eq!(back.blocks()[0].block_type, 6);
    let mut data = Vec::new();
    back.payload(&mut data).unwrap();
    assert_eq!(data, b"0123456789");
}

#[test]
fn s3_reader_reads_fetched_bytes() {
    use_reader(aqueduct::bundle::retention::S3Reader::new(b"abcdef".to_vec()));
}

fn use_reader(mut r: aqueduct::bundle::retention::S3Reader) {
    use_read(&mut r);
}

fn use_read<R: aqueduct::io::Read>(r: &mut R) {
    let mut buf = [0u8; 4];
    assert_eq!(r.read(&mut buf).unwrap(), 4);
    assert_eq!(&buf, b"abcd");
    let mut two = [0u8; 2];
    r.read_exact(&mut two).unwrap();
    assert_eq!(&two, b"ef");
    assert_eq!(r.read(&mut buf).unwrap(), 0);
    assert!(r.read_exact(&mut two).is_err());
}
