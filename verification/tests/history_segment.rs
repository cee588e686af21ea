//! Raw-history segment files.

use leani_history::frame::BlockFrame;
use leani_history::history::layout::{
    Compression, MaterialShapeId, SegmentDescriptor, SegmentError, SegmentId, SegmentLimits,
    VerificationClass, HEADER_BYTES,
};
use leani_history::history::segment::{SegmentMetadata, SegmentReader, SegmentWriter};
use leani_history::primitives::{BlockHash, BlockNumber, BlockRange, Finality, TrustModel};
use leani_history::testkit::fixtures::fixture_frame;

fn frames(start: u64, end: u64) -> Vec<BlockFrame> {
    let mut parent = BlockHash([0x44; 32]);
    (start..=end)
        .map(|number| {
            let frame = fixture_frame(number, parent);
            parent = frame.block.hash;
            frame
        })
        .collect()
}

fn encode(frame: &BlockFrame) -> Vec<u8> {
    format!("{frame:?}").into_bytes()
}

fn descriptor(frames: &[BlockFrame]) -> SegmentDescriptor {
    let capabilities = frames[0].capabilities();
    SegmentDescriptor {
        chain_id: frames[0].chain_id,
        range: BlockRange::new(
            frames[0].block.number,
            frames.last().expect("non-empty fixture").block.number,
        )
        .expect("ordered fixture"),
        material_shape: MaterialShapeId([0x33; 32]),
        present_capabilities: capabilities.present,
        complete_capabilities: capabilities.complete,
        verification: VerificationClass::TrustedDataset,
        trust: TrustModel::TrustedDataset,
    }
}

fn limits() -> SegmentLimits {
    SegmentLimits {
        maximum_frame_logical_bytes: 1024 * 1024,
        maximum_segment_logical_bytes: 16 * 1024 * 1024,
        maximum_segment_physical_bytes: 16 * 1024 * 1024,
    }
}

fn id(text: &str) -> SegmentId {
    SegmentId::new(text.to_owned()).expect("ID")
}

fn writer(name: &str, frames: &[BlockFrame], compression: Compression) -> SegmentWriter {
    SegmentWriter::create(id(name), descriptor(frames), compression, limits()).expect("writer")
}

fn write_segment(
    name: &str,
    frames: &[BlockFrame],
    compression: Compression,
) -> (Vec<u8>, SegmentMetadata) {
    let mut writer = writer(name, frames, compression);
    let mut file = writer.header();
    let mut index = Vec::new();
    for frame in frames {
        let record = writer.append(&frame.facts(None), &encode(frame)).expect("append frame");
        file.extend_from_slice(&record.stored);
        index.extend_from_slice(&record.entry);
    }
    let closed = writer.finish(&index).expect("close segment");
    file.extend_from_slice(&closed.closing);
    (file, closed.metadata)
}

#[test]
fn every_record_codec_round_trips_and_reads_one_record() {
    for compression in [Compression::Uncompressed, Compression::Snappy, Compression::Deflate] {
        for count in [1_u64, 2, 17, 129] {
            let expected = frames(100, 99 + count);
            let name = format!("roundtrip-{}-{count}", compression.byte());
            let (file, written) = write_segment(&name, &expected, compression);
            assert_eq!(written.physical_bytes, file.len() as u64);
            let reader = SegmentReader::open(&file, id(&name)).expect("validated segment");
            assert!(reader.metadata().same(&written));
            for index in [0, count / 2, count - 1] {
                let number = BlockNumber(100 + index);
                let read = reader.read_block(&file, number).expect("seek one frame");
                let frame = &expected[usize::try_from(index).expect("fixture index fits usize")];
                assert_eq!(read.logical, encode(frame));
                reader
                    .verify_frame(number, read.block_hash, read.parent_hash, &frame.facts(None))
                    .expect("same frame");
                assert_eq!(read.records_decoded, 1);
                assert!(read.stored_bytes_read < written.physical_bytes);
            }
        }
    }
}

#[test]
fn writer_rejects_non_finalized_discontinuous_and_incomplete_ranges() {
    let expected = frames(10, 12);
    let mut optimistic = fixture_frame(10, BlockHash([0x44; 32]));
    optimistic.finality = Finality::Optimistic;
    let mut first = writer("finality", &expected, Compression::Uncompressed);
    assert!(matches!(
        first.append(&optimistic.facts(None), &encode(&optimistic)),
        Err(SegmentError::NonFinalized(BlockNumber(10)))
    ));

    let mut discontinuous = frames(10, 12);
    discontinuous[1].block.parent_hash = BlockHash([0x99; 32]);
    let mut second = writer("parents", &expected, Compression::Uncompressed);
    second
        .append(&discontinuous[0].facts(None), &encode(&discontinuous[0]))
        .expect("first frame");
    assert!(matches!(
        second.append(&discontinuous[1].facts(None), &encode(&discontinuous[1])),
        Err(SegmentError::ParentMismatch { .. })
    ));

    let mut third = writer("short", &expected, Compression::Uncompressed);
    let record = third
        .append(&expected[0].facts(None), &encode(&expected[0]))
        .expect("first frame");
    assert!(matches!(
        third.finish(&record.entry),
        Err(SegmentError::IncompleteRange { expected: 3, actual: 1 })
    ));
}

#[test]
fn corrupt_and_truncated_files_fail_closed() {
    let expected = frames(20, 24);
    let (mut file, metadata) = write_segment("corrupt", &expected, Compression::Snappy);
    file[usize::try_from(HEADER_BYTES).expect("offset") + 1] = 0xff;
    assert!(matches!(
        SegmentReader::open(&file, metadata.id),
        Err(SegmentError::ContentChecksum)
    ));

    let (mut file, metadata) = write_segment("truncated", &expected, Compression::Uncompressed);
    file.pop();
    assert!(matches!(
        SegmentReader::open(&file, metadata.id),
        Err(SegmentError::TrailerMagic | SegmentError::DirectoryBounds)
    ));
}

#[test]
fn single_item_and_segment_limits_fail_before_publication() {
    let expected = frames(30, 30);
    let mut bounded = SegmentWriter::create(
        id("bounded"),
        descriptor(&expected),
        Compression::Uncompressed,
        SegmentLimits {
            maximum_frame_logical_bytes: 1,
            maximum_segment_logical_bytes: 1,
            maximum_segment_physical_bytes: 1024,
        },
    )
    .expect("writer");
    assert!(matches!(
        bounded.append(&expected[0].facts(None), &encode(&expected[0])),
        Err(SegmentError::FrameOversized { .. })
    ));
    assert!(matches!(
        bounded.finish(&[]),
        Err(SegmentError::IncompleteRange { .. } | SegmentError::WriterPoisoned)
    ));
}

#[test]
fn writer_refuses_other_shapes_and_orders() {
    let expected = frames(40, 42);
    let mut shaped = writer("shape", &expected, Compression::Uncompressed);
    assert!(matches!(
        shaped.append(&expected[0].facts(Some("bad shape")), &encode(&expected[0])),
        Err(SegmentError::InvalidFrame("bad shape"))
    ));
    let mut ordered = writer("order", &expected, Compression::Uncompressed);
    assert!(matches!(
        ordered.append(&expected[1].facts(None), &encode(&expected[1])),
        Err(SegmentError::OutOfOrder { .. })
    ));
    let mut foreign = fixture_frame(40, BlockHash([0x44; 32]));
    foreign.chain_id = leani_history::primitives::ChainId(7);
    let mut chained = writer("chain", &expected, Compression::Uncompressed);
    assert!(matches!(
        chained.append(&foreign.facts(None), &encode(&foreign)),
        Err(SegmentError::ChainMismatch { .. })
    ));
    let mut lacking = fixture_frame(40, BlockHash([0x44; 32]));
    lacking.logs = leani_history::frame::Material::Missing(
        leani_history::frame::MissingReason::NotRequested,
    );
    let mut capable = writer("capabilities", &expected, Compression::Uncompressed);
    assert!(matches!(
        capable.append(&lacking.facts(None), &encode(&lacking)),
        Err(SegmentError::CapabilityMismatch)
    ));
    assert!(SegmentId::new("../escape".to_owned()).is_err());
    assert!(SegmentId::new(String::new()).is_err());
    let (file, metadata) = write_segment("seek", &expected, Compression::Deflate);
    let reader = SegmentReader::open(&file, metadata.id).expect("open");
    assert!(matches!(
        reader.read_block(&file, BlockNumber(43)),
        Err(SegmentError::BlockOutOfRange { .. })
    ));
    let read = reader.read_block(&file, BlockNumber(41)).expect("read");
    assert!(matches!(
        reader.verify_frame(
            BlockNumber(41),
            read.block_hash,
            read.parent_hash,
            &expected[0].facts(None)
        ),
        Err(SegmentError::DecodedIdentity(BlockNumber(41)))
    ));
}
