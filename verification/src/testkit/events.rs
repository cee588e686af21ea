//! The canonical events that a processor is to derive from a generated block.

use crate::bytes::{be32, be64, push_bytes, push_u32, push_u64};
use crate::order::{precedes, Keyed};
use crate::primitives::{BlockHash, BlockNumber, BlockRef, ChainId};
use crate::stable::{insertion_place, stable_order, stable_sort};
use crate::testkit::corpus::{
    block_of, blobs_of, deterministic_hash, generated_blobs, hash_of, pool_bytes, price_of,
    swap_price, transaction_count, uniswap_weth_usdc_pool, SyntheticCorpusKind,
};
use crate::testkit::digests::{hash_bytes, push_hashes};
use vstd::prelude::*;

verus! {

/// How many of the rows come before a key.
pub open spec fn rank_in<V>(rows: Seq<(Seq<u8>, V)>, key: Seq<u8>) -> int
    decreases rows.len(),
{
    if rows.len() == 0 || !precedes(rows[0].0, key) {
        0
    } else {
        1 + rank_in(rows.drop_first(), key)
    }
}

/// Rows by ascending key. Rows of one key keep their order.
pub open spec fn ranked<V>(rows: Seq<(Seq<u8>, V)>) -> Seq<(Seq<u8>, V)>
    decreases rows.len(),
{
    if rows.len() == 0 {
        rows
    } else {
        let rest = ranked(rows.drop_first());
        rest.insert(rank_in(rest, rows[0].0), rows[0])
    }
}

/// Values with their keys, each by what `value_of` makes of it.
pub open spec fn keyed_rows<T: Keyed, V>(values: Seq<T>, value_of: spec_fn(T) -> V) -> Seq<
    (Seq<u8>, V),
> {
    values.map_values(|value: T| (value.key(), value_of(value)))
}

proof fn lemma_rank_in<T: Keyed, V>(sorted: Seq<T>, value_of: spec_fn(T) -> V, key: Seq<u8>)
    ensures
        rank_in(keyed_rows(sorted, value_of), key) == insertion_place(sorted, key),
        0 <= insertion_place(sorted, key) <= sorted.len(),
    decreases sorted.len(),
{
    if sorted.len() > 0 {
        lemma_rank_in(sorted.drop_first(), value_of, key);
        assert(keyed_rows(sorted, value_of).drop_first() =~= keyed_rows(
            sorted.drop_first(),
            value_of,
        ));
    }
}

/// Sorting values sorts their rows.
pub proof fn lemma_ranked<T: Keyed, V>(values: Seq<T>, value_of: spec_fn(T) -> V)
    ensures
        keyed_rows(stable_order(values), value_of) == ranked(keyed_rows(values, value_of)),
        stable_order(values).len() == values.len(),
    decreases values.len(),
{
    if values.len() > 0 {
        let rest = stable_order(values.drop_first());
        lemma_ranked(values.drop_first(), value_of);
        lemma_rank_in(rest, value_of, values[0].key());
        let rows = keyed_rows(values, value_of);
        assert(rows.drop_first() =~= keyed_rows(values.drop_first(), value_of));
        let at = insertion_place(rest, values[0].key());
        assert(keyed_rows(rest.insert(at, values[0]), value_of) =~= keyed_rows(
            rest,
            value_of,
        ).insert(at, rows[0]));
    } else {
        assert(keyed_rows(stable_order(values), value_of) =~= keyed_rows(values, value_of));
    }
}

/// The bytes by which a block is ordered across chains.
pub open spec fn ordered_key(chain_id: ChainId, block: BlockRef) -> Seq<u8> {
    be64(chain_id.0) + be64(block.number.0) + block.hash.0@ + block.parent_hash.0@
}

/// The bytes by which a block is ordered across chains: chain, height, hash
/// and parent.
pub fn encode_ordered(chain_id: ChainId, block: &BlockRef) -> (key: Vec<u8>)
    ensures
        key@ == ordered_key(chain_id, *block),
{
    let mut key: Vec<u8> = Vec::new();
    push_u64(&mut key, chain_id.0);
    push_u64(&mut key, block.number.0);
    push_bytes(&mut key, &block.hash.0);
    push_bytes(&mut key, &block.parent_hash.0);
    assert(key@ =~= ordered_key(chain_id, *block));
    key
}

/// A transaction of a block with its blobs.
#[derive(Debug)]
pub struct BlobTransaction {
    pub hash: BlockHash,
    pub blobs: Vec<BlockHash>,
}

impl Keyed for BlobTransaction {
    open spec fn key(&self) -> Seq<u8> {
        self.hash.0@
    }

    fn key_bytes(&self) -> (bytes: Vec<u8>) {
        let mut bytes: Vec<u8> = Vec::new();
        push_bytes(&mut bytes, &self.hash.0);
        assert(bytes@ =~= self.hash.0@);
        bytes
    }
}

/// The transactions of a block, each with its hash and its blobs.
pub open spec fn blob_rows(kind: SyntheticCorpusKind, seed: u64, number: u64, count: nat) -> Seq<
    (Seq<u8>, Seq<BlockHash>),
> {
    Seq::new(
        count,
        |index: int|
            (
                hash_of("transaction"@, seed, kind, number, index as u32).0@,
                blobs_of(kind, seed, number, index as u32),
            ),
    )
}

/// Transactions with their blobs, one after the other.
pub open spec fn rows_bytes(rows: Seq<(Seq<u8>, Seq<BlockHash>)>) -> Seq<u8>
    decreases rows.len(),
{
    if rows.len() == 0 {
        Seq::empty()
    } else {
        rows_bytes(rows.drop_last()) + rows.last().0 + be32(rows.last().1.len() as u32)
            + hash_bytes(rows.last().1)
    }
}

/// The event of a block of blob transactions, ordered by transaction hash.
pub open spec fn blobs_event(kind: SyntheticCorpusKind, seed: u64, block: BlockRef) -> Seq<u8> {
    let count = kind.transactions(block.number.0) as nat;
    seq![1u8] + be64(block.number.0) + block.hash.0@ + be32(count as u32) + rows_bytes(
        ranked(blob_rows(kind, seed, block.number.0, count)),
    )
}

/// The event of a block of blob transactions, ordered by transaction hash.
pub fn canonical_blobs_event(kind: SyntheticCorpusKind, seed: u64, block: &BlockRef) -> (event: Vec<
    u8,
>)
    ensures
        event@ == blobs_event(kind, seed, *block),
{
    let count: u32 = transaction_count(kind, block.number.0);
    let ghost all = blob_rows(kind, seed, block.number.0, count as nat);
    let ghost blobs_view = |transaction: BlobTransaction| transaction.blobs@;
    let mut transactions: Vec<BlobTransaction> = Vec::new();
    let mut index: u32 = 0;
    assert(keyed_rows(transactions@, blobs_view) =~= all.take(0));
    while index < count
        invariant
            index <= count,
            count <= 32,
            all == blob_rows(kind, seed, block.number.0, count as nat),
            blobs_view == (|transaction: BlobTransaction| transaction.blobs@),
            transactions@.len() == index,
            keyed_rows(transactions@, blobs_view) == all.take(index as int),
        decreases count - index,
    {
        let ghost before = transactions@;
        transactions.push(
            BlobTransaction {
                hash: deterministic_hash("transaction", seed, kind, block.number.0, index),
                blobs: generated_blobs(kind, seed, block.number, index),
            },
        );
        proof {
            assert(keyed_rows(transactions@, blobs_view) =~= keyed_rows(before, blobs_view).push(
                all[index as int],
            ));
            assert(all.take(index + 1) =~= all.take(index as int).push(all[index as int]));
        }
        index += 1;
    }
    proof {
        assert(all.take(count as int) =~= all);
        lemma_ranked(transactions@, blobs_view);
    }
    let sorted: Vec<BlobTransaction> = stable_sort(transactions);
    let ghost rows = keyed_rows(sorted@, blobs_view);
    let mut event: Vec<u8> = Vec::new();
    event.push(1);
    push_u64(&mut event, block.number.0);
    push_bytes(&mut event, &block.hash.0);
    push_u32(&mut event, count);
    let ghost opening = event@;
    let mut at: usize = 0;
    assert(opening + rows_bytes(rows.take(0)) =~= opening);
    while at < sorted.len()
        invariant
            at <= sorted@.len(),
            blobs_view == (|transaction: BlobTransaction| transaction.blobs@),
            rows == keyed_rows(sorted@, blobs_view),
            event@ == opening + rows_bytes(rows.take(at as int)),
        decreases sorted@.len() - at,
    {
        let transaction = &sorted[at];
        proof {
            assert(rows[at as int] == (transaction.hash.0@, transaction.blobs@));
        }
        push_bytes(&mut event, &transaction.hash.0);
        push_u32(&mut event, transaction.blobs.len() as u32);
        push_hashes(&mut event, &transaction.blobs);
        proof {
            assert(rows.take(at + 1).drop_last() =~= rows.take(at as int));
            assert(event@ =~= opening + rows_bytes(rows.take(at + 1)));
        }
        at += 1;
    }
    assert(rows.take(rows.len() as int) =~= rows);
    assert(event@ =~= blobs_event(kind, seed, *block));
    event
}

/// The event of a swap.
pub open spec fn swap_event_bytes(seed: u64, block: BlockRef, log_index: u32) -> Seq<u8> {
    seq![2u8] + pool_bytes() + block.hash.0@ + be32(log_index) + price_of(
        seed,
        block.number.0,
    )@
}

/// The event of a swap: pool, block, log and price.
pub fn canonical_uniswap_event(seed: u64, block: &BlockRef, log_index: u32) -> (event: Vec<u8>)
    ensures
        event@ == swap_event_bytes(seed, *block, log_index),
{
    let mut event: Vec<u8> = Vec::new();
    event.push(2);
    push_bytes(&mut event, &uniswap_weth_usdc_pool().0);
    push_bytes(&mut event, &block.hash.0);
    push_u32(&mut event, log_index);
    let price: [u8; 32] = swap_price(seed, block.number);
    push_bytes(&mut event, &price);
    assert(event@ =~= swap_event_bytes(seed, *block, log_index));
    event
}

/// The event of a block whose transactions are only counted.
pub open spec fn count_event(kind: SyntheticCorpusKind, block: BlockRef) -> Seq<u8> {
    seq![0u8] + ordered_key(ChainId(1), block) + be64(kind.transactions(block.number.0) as u64)
}

/// The events that a processor is to derive from a block.
pub open spec fn events_of(kind: SyntheticCorpusKind, seed: u64, number: BlockNumber) -> Seq<
    Seq<u8>,
> {
    let block = block_of(seed, kind, number);
    match kind {
        SyntheticCorpusKind::BlobsLike => seq![blobs_event(kind, seed, block)],
        SyntheticCorpusKind::UniswapLike => Seq::new(
            kind.transactions(number.0) as nat,
            |index: int| swap_event_bytes(seed, block, index as u32),
        ),
        _ => seq![count_event(kind, block)],
    }
}

/// Lists by value.
pub open spec fn byte_lists(values: Seq<Vec<u8>>) -> Seq<Seq<u8>> {
    values.map_values(|value: Vec<u8>| value@)
}

/// The events that a processor is to derive from a block.
pub fn expected_processor_events(kind: SyntheticCorpusKind, seed: u64, block: &BlockRef) -> (
    events: Vec<Vec<u8>>)
    requires
        *block == block_of(seed, kind, block.number),
    ensures
        byte_lists(events@) == events_of(kind, seed, block.number),
        events@.len() <= 1,
{
    let mut events: Vec<Vec<u8>> = Vec::new();
    match kind {
        SyntheticCorpusKind::BlobsLike => {
            events.push(canonical_blobs_event(kind, seed, block));
        },
        SyntheticCorpusKind::UniswapLike => {
            if transaction_count(kind, block.number.0) == 1 {
                events.push(canonical_uniswap_event(seed, block, 0));
            }
        },
        _ => {
            let mut event: Vec<u8> = Vec::new();
            event.push(0);
            let key: Vec<u8> = encode_ordered(ChainId(1), block);
            push_bytes(&mut event, key.as_slice());
            push_u64(&mut event, transaction_count(kind, block.number.0) as u64);
            assert(event@ =~= count_event(kind, *block));
            events.push(event);
        },
    }
    assert(byte_lists(events@) =~= events_of(kind, seed, block.number));
    events
}

} // verus!
