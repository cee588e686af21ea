//! The identity and the expected result of a generated corpus.

use crate::artifacts::segment::{record_stream, records_total};
use crate::artifacts::writer::sat;
use crate::bytes::{be64, push_bytes, push_u64};
use crate::digest::{
    absorbed, blake3_digest, blake3_hash, hasher_finalize, hasher_new, sha256, sha256_digest,
};
use crate::frame_view::FrameView;
use crate::order::Keyed;
use crate::primitives::{BlockNumber, BlockRange};
use crate::stable::stable_sort;
use crate::testkit::corpus::{
    frame_of, generated_block, is_blob_corpus, logs_of, transaction_count, SyntheticCorpusKind,
};
use crate::testkit::digests::{frame_bytes, update_expected_frame_digest};
use crate::testkit::events::{
    events_of, expected_processor_events, keyed_rows, lemma_ranked, ranked,
};
use crate::text::{hex_encode, hex_text};
use vstd::prelude::*;

verus! {

/// Immutable identity and expected result for one generated corpus.
#[derive(Debug)]
pub struct SyntheticCorpusManifest {
    pub schema_version: u32,
    pub generator: String,
    pub kind: SyntheticCorpusKind,
    pub seed: u64,
    pub range: BlockRange,
    pub chunk_blocks: u64,
    pub expected_frames: u64,
    pub expected_transactions: u64,
    pub expected_blob_transactions: u64,
    pub expected_logs: u64,
    pub expected_processor_events: u64,
    pub expected_canonical_processor_output_bytes: u64,
    pub expected_frame_digest: String,
    pub expected_processor_output_digest: String,
    pub expected_processor_output_sha256: String,
    pub expected_query_output_digest: String,
}

/// A manifest by value.
pub struct ManifestView {
    pub schema_version: u32,
    pub generator: Seq<char>,
    pub kind: SyntheticCorpusKind,
    pub seed: u64,
    pub range: BlockRange,
    pub chunk_blocks: u64,
    pub expected_frames: u64,
    pub expected_transactions: u64,
    pub expected_blob_transactions: u64,
    pub expected_logs: u64,
    pub expected_processor_events: u64,
    pub expected_canonical_processor_output_bytes: u64,
    pub expected_frame_digest: Seq<char>,
    pub expected_processor_output_digest: Seq<char>,
    pub expected_processor_output_sha256: Seq<char>,
    pub expected_query_output_digest: Seq<char>,
}

impl View for SyntheticCorpusManifest {
    type V = ManifestView;

    open spec fn view(&self) -> ManifestView {
        ManifestView {
            schema_version: self.schema_version,
            generator: self.generator@,
            kind: self.kind,
            seed: self.seed,
            range: self.range,
            chunk_blocks: self.chunk_blocks,
            expected_frames: self.expected_frames,
            expected_transactions: self.expected_transactions,
            expected_blob_transactions: self.expected_blob_transactions,
            expected_logs: self.expected_logs,
            expected_processor_events: self.expected_processor_events,
            expected_canonical_processor_output_bytes:
                self.expected_canonical_processor_output_bytes,
            expected_frame_digest: self.expected_frame_digest@,
            expected_processor_output_digest: self.expected_processor_output_digest@,
            expected_processor_output_sha256: self.expected_processor_output_sha256@,
            expected_query_output_digest: self.expected_query_output_digest@,
        }
    }
}

/// What the digest takes of `count` frames from `start` on.
pub open spec fn corpus_frames(
    kind: SyntheticCorpusKind,
    seed: u64,
    start: u64,
    count: nat,
) -> Seq<u8>
    decreases count,
{
    if count == 0 {
        Seq::empty()
    } else {
        corpus_frames(kind, seed, start, (count - 1) as nat) + frame_bytes(
            frame_of(kind, seed, BlockNumber((start + count - 1) as u64)),
        )
    }
}

/// The events of `count` blocks from `start` on, one after the other.
pub open spec fn corpus_events(
    kind: SyntheticCorpusKind,
    seed: u64,
    start: u64,
    count: nat,
) -> Seq<Seq<u8>>
    decreases count,
{
    if count == 0 {
        Seq::empty()
    } else {
        corpus_events(kind, seed, start, (count - 1) as nat) + events_of(
            kind,
            seed,
            BlockNumber((start + count - 1) as u64),
        )
    }
}

/// The transactions of `count` blocks from `start` on.
pub open spec fn corpus_transactions(kind: SyntheticCorpusKind, start: u64, count: nat) -> int
    decreases count,
{
    if count == 0 {
        0
    } else {
        corpus_transactions(kind, start, (count - 1) as nat) + kind.transactions(
            (start + count - 1) as u64,
        )
    }
}

/// The logs of `count` blocks from `start` on.
pub open spec fn corpus_logs(kind: SyntheticCorpusKind, seed: u64, start: u64, count: nat) -> int
    decreases count,
{
    if count == 0 {
        0
    } else {
        let number = (start + count - 1) as u64;
        corpus_logs(kind, seed, start, (count - 1) as nat) + logs_of(
            kind,
            seed,
            number,
            kind.transactions(number) as nat,
        ).len()
    }
}

/// Events with nothing beside them.
pub open spec fn bare_rows(events: Seq<Seq<u8>>) -> Seq<(Seq<u8>, ())> {
    events.map_values(|event: Seq<u8>| (event, ()))
}

/// The events in byte order.
pub open spec fn sorted_events(events: Seq<Seq<u8>>) -> Seq<Seq<u8>> {
    ranked(bare_rows(events)).map_values(|row: (Seq<u8>, ())| row.0)
}

/// What the query digest is taken over: the events of a corpus of swaps in
/// byte order, those of any other as they come.
pub open spec fn queried_events(kind: SyntheticCorpusKind, events: Seq<Seq<u8>>) -> Seq<Seq<u8>> {
    if kind == SyntheticCorpusKind::UniswapLike && events.len() > 0 {
        sorted_events(events)
    } else {
        events
    }
}

/// The digest of bytes as text.
pub open spec fn digest_text(bytes: Seq<u8>) -> Seq<char> {
    hex_text(blake3_digest(bytes)@)
}

/// The manifest of a range.
pub open spec fn manifest_of(
    kind: SyntheticCorpusKind,
    seed: u64,
    range: BlockRange,
    chunk_blocks: u64,
) -> ManifestView {
    let count = (range.end.0 - range.start.0 + 1) as nat;
    let events = corpus_events(kind, seed, range.start.0, count);
    let transactions = corpus_transactions(kind, range.start.0, count);
    ManifestView {
        schema_version: 4,
        generator: "leani-testkit.synthetic-benchmark.v4"@,
        kind,
        seed,
        range,
        chunk_blocks,
        expected_frames: range.spec_len(),
        expected_transactions: sat(transactions),
        expected_blob_transactions: if kind.has_blobs() {
            sat(transactions)
        } else {
            0
        },
        expected_logs: sat(corpus_logs(kind, seed, range.start.0, count)),
        expected_processor_events: sat(events.len() as int),
        expected_canonical_processor_output_bytes: sat(records_total(events)),
        expected_frame_digest: digest_text(corpus_frames(kind, seed, range.start.0, count)),
        expected_processor_output_digest: digest_text(record_stream(events)),
        expected_processor_output_sha256: hex_text(sha256_digest(record_stream(events))@),
        expected_query_output_digest: digest_text(record_stream(queried_events(kind, events))),
    }
}

/// An event, ordered by its bytes.
#[derive(Debug)]
struct QueryEvent {
    bytes: Vec<u8>,
}

impl Keyed for QueryEvent {
    closed spec fn key(&self) -> Seq<u8> {
        self.bytes@
    }

    fn key_bytes(&self) -> (bytes: Vec<u8>) {
        let mut bytes: Vec<u8> = Vec::new();
        push_bytes(&mut bytes, self.bytes.as_slice());
        assert(bytes@ =~= self.bytes@);
        bytes
    }
}

/// Appends a record behind its length.
fn push_record(output: &mut Vec<u8>, record: &[u8])
    ensures
        final(output)@ == old(output)@ + be64(record@.len() as u64) + record@,
{
    push_u64(output, record.len() as u64);
    push_bytes(output, record);
    assert(output@ =~= old(output)@ + be64(record@.len() as u64) + record@);
}

/// One more record at the end.
proof fn lemma_record_pushed(records: Seq<Seq<u8>>, record: Seq<u8>)
    ensures
        record_stream(records.push(record)) == record_stream(records) + be64(record.len() as u64)
            + record,
        records_total(records.push(record)) == records_total(records) + record.len(),
{
    assert(records.push(record).drop_last() =~= records);
}

spec fn event_bytes(events: Seq<QueryEvent>) -> Seq<Seq<u8>> {
    events.map_values(|event: QueryEvent| event.bytes@)
}

fn sorted_stream(events: Vec<QueryEvent>) -> (output: Vec<u8>)
    ensures
        output@ == record_stream(sorted_events(event_bytes(events@))),
{
    let ghost nothing = |event: QueryEvent| ();
    proof {
        lemma_ranked(events@, nothing);
        assert(keyed_rows(events@, nothing) =~= bare_rows(event_bytes(events@)));
    }
    let ghost given = events@;
    let sorted: Vec<QueryEvent> = stable_sort(events);
    let ghost ordered = event_bytes(sorted@);
    proof {
        assert(keyed_rows(sorted@, nothing) == ranked(bare_rows(event_bytes(given))));
        assert(ordered =~= sorted_events(event_bytes(given))) by {
            assert forall|i: int| 0 <= i < ordered.len() implies ordered[i] == keyed_rows(
                sorted@,
                nothing,
            )[i].0 by {}
        }
    }
    let mut output: Vec<u8> = Vec::new();
    let mut index: usize = 0;
    assert(record_stream(ordered.take(0)) =~= Seq::empty());
    while index < sorted.len()
        invariant
            index <= sorted@.len(),
            ordered == event_bytes(sorted@),
            output@ == record_stream(ordered.take(index as int)),
        decreases sorted@.len() - index,
    {
        push_record(&mut output, sorted[index].bytes.as_slice());
        proof {
            lemma_record_pushed(ordered.take(index as int), ordered[index as int]);
            assert(ordered.take(index + 1) =~= ordered.take(index as int).push(
                ordered[index as int],
            ));
        }
        index += 1;
    }
    assert(ordered.take(ordered.len() as int) =~= ordered);
    output
}

/// Builds the immutable expected manifest for an explicit synthetic range.
///
/// This is useful when a benchmark drives material outside the range that its
/// source advertises, such as a concurrent live tail.
pub fn synthetic_corpus_manifest(
    kind: SyntheticCorpusKind,
    seed: u64,
    range: BlockRange,
    chunk_blocks: u64,
) -> (manifest: SyntheticCorpusManifest)
    requires
        range.wf(),
    ensures
        manifest@ == manifest_of(kind, seed, range, chunk_blocks),
{
    let mut frame_hasher = hasher_new();
    let mut output: Vec<u8> = Vec::new();
    let mut query: Vec<QueryEvent> = Vec::new();
    let mut transactions: u64 = 0;
    let mut logs: u64 = 0;
    let mut events: u64 = 0;
    let mut output_bytes: u64 = 0;
    let swaps = kind == SyntheticCorpusKind::UniswapLike;
    let start: u64 = range.start.0;
    let mut number: u64 = start;
    let mut finished = false;
    let ghost mut count: nat = 0;
    proof {
        assert(absorbed(frame_hasher) =~= corpus_frames(kind, seed, start, 0));
        assert(event_bytes(query@) =~= corpus_events(kind, seed, start, 0));
        assert(output@ =~= record_stream(corpus_events(kind, seed, start, 0)));
    }
    while !finished
        invariant
            range.wf(),
            start == range.start.0,
            swaps == (kind == SyntheticCorpusKind::UniswapLike),
            finished ==> count == range.end.0 - start + 1,
            !finished ==> number == start + count && number <= range.end.0,
            absorbed(frame_hasher) == corpus_frames(kind, seed, start, count),
            output@ == record_stream(corpus_events(kind, seed, start, count)),
            swaps ==> event_bytes(query@) == corpus_events(kind, seed, start, count),
            transactions == sat(corpus_transactions(kind, start, count)),
            corpus_transactions(kind, start, count) >= 0,
            logs == sat(corpus_logs(kind, seed, start, count)),
            corpus_logs(kind, seed, start, count) >= 0,
            events == sat(corpus_events(kind, seed, start, count).len() as int),
            output_bytes == sat(records_total(corpus_events(kind, seed, start, count))),
            records_total(corpus_events(kind, seed, start, count)) >= 0,
        decreases range.end.0 - start + 1 - count,
    {
        let here = BlockNumber(number);
        let ghost before = corpus_events(kind, seed, start, count);
        let ghost next = (count + 1) as nat;
        proof {
            assert((start + next - 1) as u64 == number);
        }
        let block_logs: u64 = update_expected_frame_digest(&mut frame_hasher, kind, seed, here);
        transactions = transactions.saturating_add(transaction_count(kind, number) as u64);
        logs = logs.saturating_add(block_logs);
        let block = generated_block(seed, kind, here);
        let block_events: Vec<Vec<u8>> = expected_processor_events(kind, seed, &block);
        if block_events.len() == 1 {
            let event = &block_events[0];
            output_bytes = output_bytes.saturating_add(event.len() as u64);
            events = events.saturating_add(1);
            push_record(&mut output, event.as_slice());
            let ghost asked = query@;
            if swaps {
                let mut bytes: Vec<u8> = Vec::new();
                push_bytes(&mut bytes, event.as_slice());
                assert(bytes@ =~= event@);
                query.push(QueryEvent { bytes });
                assert(event_bytes(query@) =~= event_bytes(asked).push(event@));
            }
            proof {
                assert(events_of(kind, seed, here)[0] == event@);
                assert(events_of(kind, seed, here) =~= seq![event@]);
                assert(before + events_of(kind, seed, here) =~= before.push(event@));
                lemma_record_pushed(before, event@);
            }
        } else {
            proof {
                assert(events_of(kind, seed, here) =~= Seq::empty());
                assert(before + events_of(kind, seed, here) =~= before);
            }
        }
        proof {
            count = next;
            assert(corpus_events(kind, seed, start, count) == before + events_of(
                kind,
                seed,
                here,
            ));
            assert(corpus_frames(kind, seed, start, count) == corpus_frames(
                kind,
                seed,
                start,
                (count - 1) as nat,
            ) + frame_bytes(frame_of(kind, seed, here)));
        }
        if number == range.end.0 {
            finished = true;
        } else {
            number = number + 1;
        }
    }
    let ghost all = corpus_events(kind, seed, start, count);
    let frame_digest: String = hex_encode(&hasher_finalize(&frame_hasher));
    let output_digest: String = hex_encode(&blake3_hash(output.as_slice()));
    let output_sha256: String = hex_encode(&sha256(output.as_slice()));
    let query_digest: String = if swaps && query.len() > 0 {
        assert(all.len() > 0);
        let sorted: Vec<u8> = sorted_stream(query);
        hex_encode(&blake3_hash(sorted.as_slice()))
    } else {
        proof {
            if swaps {
                assert(event_bytes(query@).len() == 0);
            }
        }
        hex_encode(&blake3_hash(output.as_slice()))
    };
    let manifest = SyntheticCorpusManifest {
        schema_version: 4,
        generator: "leani-testkit.synthetic-benchmark.v4".to_owned(),
        kind,
        seed,
        range,
        chunk_blocks,
        expected_frames: range.len(),
        expected_transactions: transactions,
        expected_blob_transactions: if is_blob_corpus(kind) {
            transactions
        } else {
            0
        },
        expected_logs: logs,
        expected_processor_events: events,
        expected_canonical_processor_output_bytes: output_bytes,
        expected_frame_digest: frame_digest,
        expected_processor_output_digest: output_digest,
        expected_processor_output_sha256: output_sha256,
        expected_query_output_digest: query_digest,
    };
    manifest
}

/// What the digest takes of frames, one after the other.
pub open spec fn streamed(frames: Seq<FrameView>) -> Seq<u8>
    decreases frames.len(),
{
    if frames.len() == 0 {
        Seq::empty()
    } else {
        streamed(frames.drop_last()) + frame_bytes(frames.last())
    }
}

/// The frames that a corpus streams give the digest that its manifest expects.
pub proof fn law_streamed_frames_match_the_manifest(
    kind: SyntheticCorpusKind,
    seed: u64,
    range: BlockRange,
    chunk_blocks: u64,
    frames: Seq<FrameView>,
)
    requires
        range.wf(),
        frames.len() == range.end.0 - range.start.0 + 1,
        forall|i: int|
            0 <= i < frames.len() ==> #[trigger] frames[i] == frame_of(
                kind,
                seed,
                BlockNumber((range.start.0 + i) as u64),
            ),
    ensures
        digest_text(streamed(frames)) == manifest_of(
            kind,
            seed,
            range,
            chunk_blocks,
        ).expected_frame_digest,
{
    lemma_streamed(kind, seed, range.start.0, frames);
}

proof fn lemma_streamed(
    kind: SyntheticCorpusKind,
    seed: u64,
    start: u64,
    frames: Seq<FrameView>,
)
    requires
        forall|i: int|
            0 <= i < frames.len() ==> #[trigger] frames[i] == frame_of(
                kind,
                seed,
                BlockNumber((start + i) as u64),
            ),
    ensures
        streamed(frames) == corpus_frames(kind, seed, start, frames.len()),
    decreases frames.len(),
{
    if frames.len() > 0 {
        lemma_streamed(kind, seed, start, frames.drop_last());
    }
}

} // verus!
