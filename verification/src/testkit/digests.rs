//! The stable digest of a synthetic corpus, from its frames and from its shape.

use crate::bytes::{be32, be64, push_bytes, push_u32, push_u64};
use crate::digest::{absorbed, hasher_update};
use crate::frame::{BlockFrame, Log, Material, TransactionEnvelope};
use crate::frame_view::{views, FrameView, LogView, MaterialView, TransactionView};
use crate::primitives::{BlockHash, BlockNumber, BlockRef};
use crate::testkit::corpus::{
    deterministic_hash, emits_log, frame_of, generated_blobs, generated_block, generated_log,
    is_blob_corpus, log_of, logs_of, transaction_count, transaction_of, SyntheticCorpusKind,
};
use vstd::prelude::*;

verus! {

/// The bytes of hashes, one after the other.
pub open spec fn hash_bytes(hashes: Seq<BlockHash>) -> Seq<u8>
    decreases hashes.len(),
{
    if hashes.len() == 0 {
        Seq::empty()
    } else {
        hash_bytes(hashes.drop_last()) + hashes.last().0@
    }
}

/// The bytes of topics, one after the other.
pub open spec fn topic_bytes(topics: Seq<[u8; 32]>) -> Seq<u8>
    decreases topics.len(),
{
    if topics.len() == 0 {
        Seq::empty()
    } else {
        topic_bytes(topics.drop_last()) + topics.last()@
    }
}

/// What the digest takes of a transaction.
pub open spec fn transaction_bytes(transaction: TransactionView) -> Seq<u8> {
    transaction.hash.0@ + seq![transaction.transaction_type] + be32(transaction.index)
        + hash_bytes(transaction.blob_versioned_hashes)
}

/// What the digest takes of transactions, one after the other.
pub open spec fn transactions_bytes(transactions: Seq<TransactionView>) -> Seq<u8>
    decreases transactions.len(),
{
    if transactions.len() == 0 {
        Seq::empty()
    } else {
        transactions_bytes(transactions.drop_last()) + transaction_bytes(transactions.last())
    }
}

/// What the digest takes of a log.
pub open spec fn log_bytes(log: LogView) -> Seq<u8> {
    (match log.transaction_hash {
        Some(hash) => hash.0@,
        None => Seq::empty(),
    }) + be32(log.log_index) + log.address.0@ + be64(log.topics.len() as u64) + topic_bytes(
        log.topics,
    ) + be64(log.data.len() as u64) + log.data
}

/// What the digest takes of logs, one after the other.
pub open spec fn logs_bytes(logs: Seq<LogView>) -> Seq<u8>
    decreases logs.len(),
{
    if logs.len() == 0 {
        Seq::empty()
    } else {
        logs_bytes(logs.drop_last()) + log_bytes(logs.last())
    }
}

/// What the digest takes of a block's identity.
pub open spec fn block_bytes(block: BlockRef) -> Seq<u8> {
    be64(block.number.0) + block.hash.0@ + block.parent_hash.0@ + be64(block.timestamp)
}

/// What the digest takes of a frame: its identity, its complete transactions
/// and its complete logs.
pub open spec fn frame_bytes(frame: FrameView) -> Seq<u8> {
    block_bytes(frame.block) + (match frame.transactions {
        MaterialView::Complete(transactions) => be64(transactions.len() as u64)
            + transactions_bytes(transactions),
        _ => Seq::empty(),
    }) + (match frame.logs {
        MaterialView::Complete(logs) => be64(logs.len() as u64) + logs_bytes(logs),
        _ => Seq::empty(),
    })
}

pub(crate) fn push_hashes(output: &mut Vec<u8>, hashes: &Vec<BlockHash>)
    ensures
        final(output)@ == old(output)@ + hash_bytes(hashes@),
{
    let ghost before = output@;
    let mut index: usize = 0;
    assert(before + hash_bytes(hashes@.take(0)) =~= before);
    while index < hashes.len()
        invariant
            index <= hashes@.len(),
            output@ == before + hash_bytes(hashes@.take(index as int)),
        decreases hashes@.len() - index,
    {
        push_bytes(output, &hashes[index].0);
        proof {
            assert(hashes@.take(index + 1).drop_last() =~= hashes@.take(index as int));
            assert(output@ =~= before + hash_bytes(hashes@.take(index + 1)));
        }
        index += 1;
    }
    assert(hashes@.take(index as int) =~= hashes@);
}

fn push_topics(output: &mut Vec<u8>, topics: &Vec<[u8; 32]>)
    ensures
        final(output)@ == old(output)@ + topic_bytes(topics@),
{
    let ghost before = output@;
    let mut index: usize = 0;
    assert(before + topic_bytes(topics@.take(0)) =~= before);
    while index < topics.len()
        invariant
            index <= topics@.len(),
            output@ == before + topic_bytes(topics@.take(index as int)),
        decreases topics@.len() - index,
    {
        push_bytes(output, &topics[index]);
        proof {
            assert(topics@.take(index + 1).drop_last() =~= topics@.take(index as int));
            assert(output@ =~= before + topic_bytes(topics@.take(index + 1)));
        }
        index += 1;
    }
    assert(topics@.take(index as int) =~= topics@);
}

fn push_block(output: &mut Vec<u8>, block: &BlockRef)
    ensures
        final(output)@ == old(output)@ + block_bytes(*block),
{
    push_u64(output, block.number.0);
    push_bytes(output, &block.hash.0);
    push_bytes(output, &block.parent_hash.0);
    push_u64(output, block.timestamp);
    assert(output@ =~= old(output)@ + block_bytes(*block));
}

fn push_transaction(output: &mut Vec<u8>, transaction: &TransactionEnvelope)
    ensures
        final(output)@ == old(output)@ + transaction_bytes(transaction@),
{
    push_bytes(output, &transaction.hash.0);
    output.push(transaction.transaction_type);
    push_u32(output, transaction.index);
    push_hashes(output, &transaction.blob_versioned_hashes);
    assert(output@ =~= old(output)@ + transaction_bytes(transaction@));
}

fn push_log(output: &mut Vec<u8>, log: &Log)
    ensures
        final(output)@ == old(output)@ + log_bytes(log@),
{
    if let Some(hash) = log.transaction_hash {
        push_bytes(output, &hash.0);
    }
    push_u32(output, log.log_index);
    push_bytes(output, &log.address.0);
    push_u64(output, log.topics.len() as u64);
    push_topics(output, &log.topics);
    push_u64(output, log.data.len() as u64);
    push_bytes(output, log.data.as_slice());
    assert(output@ =~= old(output)@ + log_bytes(log@));
}

fn push_transactions(output: &mut Vec<u8>, transactions: &Vec<TransactionEnvelope>)
    ensures
        final(output)@ == old(output)@ + transactions_bytes(views(transactions@)),
{
    let ghost before = output@;
    let ghost all = views(transactions@);
    let mut index: usize = 0;
    assert(before + transactions_bytes(all.take(0)) =~= before);
    while index < transactions.len()
        invariant
            index <= transactions@.len(),
            all == views(transactions@),
            output@ == before + transactions_bytes(all.take(index as int)),
        decreases transactions@.len() - index,
    {
        push_transaction(output, &transactions[index]);
        proof {
            assert(all.take(index + 1).drop_last() =~= all.take(index as int));
            assert(all.take(index + 1).last() == transactions@[index as int]@);
            assert(output@ =~= before + transactions_bytes(all.take(index + 1)));
        }
        index += 1;
    }
    assert(all.take(index as int) =~= all);
}

fn push_logs(output: &mut Vec<u8>, logs: &Vec<Log>)
    ensures
        final(output)@ == old(output)@ + logs_bytes(views(logs@)),
{
    let ghost before = output@;
    let ghost all = views(logs@);
    let mut index: usize = 0;
    assert(before + logs_bytes(all.take(0)) =~= before);
    while index < logs.len()
        invariant
            index <= logs@.len(),
            all == views(logs@),
            output@ == before + logs_bytes(all.take(index as int)),
        decreases logs@.len() - index,
    {
        push_log(output, &logs[index]);
        proof {
            assert(all.take(index + 1).drop_last() =~= all.take(index as int));
            assert(all.take(index + 1).last() == logs@[index as int]@);
            assert(output@ =~= before + logs_bytes(all.take(index + 1)));
        }
        index += 1;
    }
    assert(all.take(index as int) =~= all);
}

/// Adds one normalized frame to the stable synthetic-corpus digest.
pub fn update_frame_digest(hasher: &mut blake3::Hasher, frame: &BlockFrame)
    ensures
        absorbed(*final(hasher)) == absorbed(*old(hasher)) + frame_bytes(frame@),
{
    let mut output: Vec<u8> = Vec::new();
    push_block(&mut output, &frame.block);
    if let Material::Complete(transactions) = &frame.transactions {
        push_u64(&mut output, transactions.len() as u64);
        push_transactions(&mut output, transactions);
    }
    if let Material::Complete(logs) = &frame.logs {
        push_u64(&mut output, logs.len() as u64);
        push_logs(&mut output, logs);
    }
    assert(output@ =~= frame_bytes(frame@));
    hasher_update(hasher, output.as_slice());
}

/// How many of the first `count` transactions of a block emit a log.
fn log_count(kind: SyntheticCorpusKind, seed: u64, number: BlockNumber, count: u32) -> (logs: u64)
    requires
        count <= 32,
    ensures
        logs == logs_of(kind, seed, number.0, count as nat).len(),
        logs <= count,
{
    let mut logs: u64 = 0;
    let mut index: u32 = 0;
    while index < count
        invariant
            index <= count,
            count <= 32,
            logs == logs_of(kind, seed, number.0, index as nat).len(),
            logs <= index,
        decreases count - index,
    {
        if emits_log(kind, index) {
            logs += 1;
        }
        index += 1;
        assert(logs == logs_of(kind, seed, number.0, index as nat).len());
    }
    logs
}

/// Adds the frame that a block's shape calls for to the stable digest, without
/// generating the frame. Returns how many logs it has.
pub fn update_expected_frame_digest(
    hasher: &mut blake3::Hasher,
    kind: SyntheticCorpusKind,
    seed: u64,
    number: BlockNumber,
) -> (logs: u64)
    ensures
        absorbed(*final(hasher)) == absorbed(*old(hasher)) + frame_bytes(
            frame_of(kind, seed, number),
        ),
        logs == logs_of(kind, seed, number.0, kind.transactions(number.0) as nat).len(),
        logs <= 32,
{
    let count: u32 = transaction_count(kind, number.0);
    let blob = is_blob_corpus(kind);
    let mut output: Vec<u8> = Vec::new();
    push_block(&mut output, &generated_block(seed, kind, number));
    push_u64(&mut output, count as u64);
    let ghost opening = output@;
    let ghost all = Seq::new(
        count as nat,
        |index: int| transaction_of(kind, seed, number.0, index as u32),
    );
    let mut index: u32 = 0;
    assert(opening + transactions_bytes(all.take(0)) =~= opening);
    while index < count
        invariant
            index <= count,
            count <= 32,
            blob == kind.has_blobs(),
            all == Seq::new(
                count as nat,
                |index: int| transaction_of(kind, seed, number.0, index as u32),
            ),
            output@ == opening + transactions_bytes(all.take(index as int)),
        decreases count - index,
    {
        let ghost before = output@;
        push_bytes(
            &mut output,
            &deterministic_hash("transaction", seed, kind, number.0, index).0,
        );
        output.push(
            if blob {
                3
            } else {
                2
            },
        );
        push_u32(&mut output, index);
        push_hashes(&mut output, &generated_blobs(kind, seed, number, index));
        proof {
            let transaction = transaction_of(kind, seed, number.0, index);
            assert(output@ =~= before + transaction_bytes(transaction));
            assert(all.take(index + 1).drop_last() =~= all.take(index as int));
            assert(all.take(index + 1).last() == transaction);
            assert(output@ =~= opening + transactions_bytes(all.take(index + 1)));
        }
        index += 1;
    }
    assert(all.take(count as int) =~= all);
    let logs: u64 = log_count(kind, seed, number, count);
    push_u64(&mut output, logs);
    let ghost middle = output@;
    let mut log_index: u32 = 0;
    let mut sender: u32 = 0;
    assert(middle + logs_bytes(logs_of(kind, seed, number.0, 0)) =~= middle);
    while sender < count
        invariant
            sender <= count,
            count <= 32,
            log_index <= sender,
            log_index == logs_of(kind, seed, number.0, sender as nat).len(),
            output@ == middle + logs_bytes(logs_of(kind, seed, number.0, sender as nat)),
        decreases count - sender,
    {
        let ghost before = output@;
        if emits_log(kind, sender) {
            push_log(&mut output, &generated_log(kind, seed, number, sender, log_index));
            proof {
                let sent = logs_of(kind, seed, number.0, sender as nat);
                let log = log_of(kind, seed, number.0, sender, log_index);
                assert(sent.push(log).drop_last() =~= sent);
                assert(output@ =~= middle + logs_bytes(sent.push(log)));
            }
            log_index += 1;
        }
        sender += 1;
        assert(output@ == middle + logs_bytes(logs_of(kind, seed, number.0, sender as nat)));
    }
    assert(output@ =~= frame_bytes(frame_of(kind, seed, number)));
    hasher_update(hasher, output.as_slice());
    logs
}

} // verus!
