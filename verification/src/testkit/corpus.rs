//! Deterministic blocks for correctness and performance evidence.

use crate::artifacts::writer::sat;
use crate::bytes::{
    array20, array20_at, array32, array32_at, be32, be64, lemma_same_view_same_array, push_bytes,
    push_u32, push_u64,
};
use crate::digest::{blake3_digest, blake3_hash, keccak256, keccak256_digest};
use crate::frame::{
    BlockFrame, HeaderEnvelope, Log, Material, MissingReason, ReceiptEnvelope, TransactionEnvelope,
};
use crate::frame_view::{
    views, FrameView, HeaderView, LogView, MaterialView, ReceiptView, TransactionView,
};
use crate::primitives::{
    Address, BlockHash, BlockNumber, BlockRef, ChainId, Finality, Quantity, TransactionHash,
};
use vstd::prelude::*;
use vstd::utf8::encode_utf8;

verus! {

/// Stable synthetic material shape used by benchmark reports and fixtures.
#[derive(Clone, Copy, Debug, PartialEq, Eq, Structural)]
pub enum SyntheticCorpusKind {
    Zero,
    Sparse,
    BlobsLike,
    UniswapLike,
    Dense,
}

impl SyntheticCorpusKind {
    pub open spec fn spec_str(self) -> &'static str {
        match self {
            SyntheticCorpusKind::Zero => "zero",
            SyntheticCorpusKind::Sparse => "sparse",
            SyntheticCorpusKind::BlobsLike => "blobs_like",
            SyntheticCorpusKind::UniswapLike => "uniswap_like",
            SyntheticCorpusKind::Dense => "dense",
        }
    }

    /// The stable name of the shape.
    pub fn as_str(self) -> (name: &'static str)
        ensures
            name == self.spec_str(),
    {
        match self {
            SyntheticCorpusKind::Zero => "zero",
            SyntheticCorpusKind::Sparse => "sparse",
            SyntheticCorpusKind::BlobsLike => "blobs_like",
            SyntheticCorpusKind::UniswapLike => "uniswap_like",
            SyntheticCorpusKind::Dense => "dense",
        }
    }

    /// The transactions of a shape carry blobs.
    pub open spec fn has_blobs(self) -> bool {
        self == SyntheticCorpusKind::BlobsLike || self == SyntheticCorpusKind::Dense
    }

    /// How many transactions a shape puts into a block.
    pub open spec fn transactions(self, number: u64) -> int {
        match self {
            SyntheticCorpusKind::Zero => 0,
            SyntheticCorpusKind::Sparse => if number % 997 == 0 {
                1
            } else {
                0
            },
            SyntheticCorpusKind::BlobsLike => {
                let rest = number % 20;
                if rest == 0 {
                    4
                } else if rest == 1 || rest == 5 {
                    2
                } else if rest == 7 || rest == 11 || rest == 13 {
                    1
                } else {
                    0
                }
            },
            SyntheticCorpusKind::UniswapLike => if number % 4 == 0 || number % 97 == 1 {
                1
            } else {
                0
            },
            SyntheticCorpusKind::Dense => 32,
        }
    }

    /// Whether the transaction at `index` of a block emits a log.
    pub open spec fn emits(self, index: int) -> bool {
        match self {
            SyntheticCorpusKind::Sparse | SyntheticCorpusKind::UniswapLike => true,
            SyntheticCorpusKind::Dense => index % 2 == 0,
            SyntheticCorpusKind::Zero | SyntheticCorpusKind::BlobsLike => false,
        }
    }

    /// How many bytes the transaction at `index` of a block is encoded in.
    pub open spec fn payload(self, index: int) -> int {
        match self {
            SyntheticCorpusKind::Zero => 0,
            SyntheticCorpusKind::Sparse => 128,
            SyntheticCorpusKind::BlobsLike => 256 + 16 * index,
            SyntheticCorpusKind::UniswapLike => 256,
            SyntheticCorpusKind::Dense => 4096,
        }
    }

    /// How many blobs the transaction at `index` of a block carries.
    pub open spec fn blobs(self, number: u64, index: int) -> int {
        if self.has_blobs() {
            1 + (number + index) % 3
        } else {
            0
        }
    }
}

/// How many transactions a shape puts into a block.
pub fn transaction_count(kind: SyntheticCorpusKind, number: u64) -> (count: u32)
    ensures
        count == kind.transactions(number),
        count <= 32,
{
    match kind {
        SyntheticCorpusKind::Zero => 0,
        SyntheticCorpusKind::Sparse => if number % 997 == 0 {
            1
        } else {
            0
        },
        SyntheticCorpusKind::BlobsLike => {
            let rest: u64 = number % 20;
            if rest == 0 {
                4
            } else if rest == 1 || rest == 5 {
                2
            } else if rest == 7 || rest == 11 || rest == 13 {
                1
            } else {
                0
            }
        },
        SyntheticCorpusKind::UniswapLike => if number % 4 == 0 || number % 97 == 1 {
            1
        } else {
            0
        },
        SyntheticCorpusKind::Dense => 32,
    }
}

/// Whether the transactions of a shape carry blobs.
pub fn is_blob_corpus(kind: SyntheticCorpusKind) -> (blobs: bool)
    ensures
        blobs == kind.has_blobs(),
{
    match kind {
        SyntheticCorpusKind::BlobsLike | SyntheticCorpusKind::Dense => true,
        _ => false,
    }
}

pub(crate) fn emits_log(kind: SyntheticCorpusKind, index: u32) -> (emits: bool)
    ensures
        emits == kind.emits(index as int),
{
    match kind {
        SyntheticCorpusKind::Sparse | SyntheticCorpusKind::UniswapLike => true,
        SyntheticCorpusKind::Dense => index % 2 == 0,
        SyntheticCorpusKind::Zero | SyntheticCorpusKind::BlobsLike => false,
    }
}

fn payload_bytes(kind: SyntheticCorpusKind, index: u32) -> (bytes: usize)
    requires
        index < 32,
    ensures
        bytes == kind.payload(index as int),
        bytes <= 4096,
{
    match kind {
        SyntheticCorpusKind::Zero => 0,
        SyntheticCorpusKind::Sparse => 128,
        SyntheticCorpusKind::BlobsLike => 256 + 16 * index as usize,
        SyntheticCorpusKind::UniswapLike => 256,
        SyntheticCorpusKind::Dense => 4096,
    }
}

pub(crate) fn blob_count(kind: SyntheticCorpusKind, number: u64, index: u32) -> (count: u32)
    ensures
        count == kind.blobs(number, index as int),
        count <= 3,
{
    if is_blob_corpus(kind) {
        1 + ((number % 3 + index as u64 % 3) % 3) as u32
    } else {
        0
    }
}

/// What a generated hash is taken over.
pub open spec fn hash_input(
    domain: Seq<char>,
    seed: u64,
    kind: SyntheticCorpusKind,
    number: u64,
    index: u32,
) -> Seq<u8> {
    encode_utf8(domain) + be64(seed) + encode_utf8(kind.spec_str()@) + be64(number) + be32(index)
}

/// A generated hash.
pub open spec fn hash_of(
    domain: Seq<char>,
    seed: u64,
    kind: SyntheticCorpusKind,
    number: u64,
    index: u32,
) -> BlockHash {
    BlockHash(blake3_digest(hash_input(domain, seed, kind, number, index)))
}

/// A generated hash: the digest of its domain, the seed, the shape, the block
/// and an index.
pub fn deterministic_hash(
    domain: &str,
    seed: u64,
    kind: SyntheticCorpusKind,
    number: u64,
    index: u32,
) -> (hash: BlockHash)
    ensures
        hash == hash_of(domain@, seed, kind, number, index),
{
    let mut input: Vec<u8> = Vec::new();
    push_bytes(&mut input, domain.as_bytes());
    push_u64(&mut input, seed);
    push_bytes(&mut input, kind.as_str().as_bytes());
    push_u64(&mut input, number);
    push_u32(&mut input, index);
    assert(input@ =~= hash_input(domain@, seed, kind, number, index));
    BlockHash(blake3_hash(input.as_slice()))
}

/// A count, capped at the largest `u32`.
pub open spec fn capped32(count: int) -> u32 {
    if count > u32::MAX {
        u32::MAX
    } else {
        count as u32
    }
}

/// The first `count` digests of a generated stream.
pub open spec fn stream(seed: u64, number: u64, index: u32, count: nat) -> Seq<u8>
    decreases count,
{
    if count == 0 {
        Seq::empty()
    } else {
        stream(seed, number, index, (count - 1) as nat) + blake3_digest(
            be64(seed) + be64(number) + be32(index) + be32(capped32(count - 1)),
        )@
    }
}

/// The first `length` bytes of a generated stream.
pub open spec fn bytes_of(seed: u64, number: u64, index: u32, length: int) -> Seq<u8> {
    stream(seed, number, index, ((length + 31) / 32) as nat).take(length)
}

/// Generated bytes: the digests of the seed, the block, the index and a
/// counter, one after the other, cut to a length.
pub fn deterministic_bytes(seed: u64, number: u64, index: u32, length: usize) -> (bytes: Vec<u8>)
    ensures
        bytes@ == bytes_of(seed, number, index, length as int),
        bytes@.len() == length,
{
    let mut output: Vec<u8> = Vec::new();
    let mut counter: u32 = 0;
    let ghost mut count: nat = 0;
    while output.len() < length
        invariant
            counter == capped32(count as int),
            count <= (length + 31) / 32,
            output@.len() == 32 * count,
            output@ == stream(seed, number, index, count),
        decreases length + 32 - output@.len(),
    {
        let mut input: Vec<u8> = Vec::new();
        push_u64(&mut input, seed);
        push_u64(&mut input, number);
        push_u32(&mut input, index);
        push_u32(&mut input, counter);
        assert(input@ =~= be64(seed) + be64(number) + be32(index) + be32(counter));
        let digest: [u8; 32] = blake3_hash(input.as_slice());
        push_bytes(&mut output, &digest);
        counter = counter.saturating_add(1);
        proof {
            count = count + 1;
        }
    }
    assert(count == (length + 31) / 32);
    output.truncate(length);
    assert(output@ =~= bytes_of(seed, number, index, length as int));
    output
}

/// The hash of the block before.
pub open spec fn parent_of(seed: u64, kind: SyntheticCorpusKind, number: u64) -> BlockHash {
    if number <= 1 {
        BlockHash(filled32(0))
    } else {
        hash_of("block"@, seed, kind, (number - 1) as u64, 0)
    }
}

/// Thirty-two times the same byte.
pub open spec fn filled32(byte: u8) -> [u8; 32] {
    array32(Seq::new(32, |i: int| byte))
}

/// Twenty times the same byte.
pub open spec fn filled20(byte: u8) -> [u8; 20] {
    array20(Seq::new(20, |i: int| byte))
}

fn repeated(byte: u8, count: usize) -> (bytes: Vec<u8>)
    ensures
        bytes@ == Seq::new(count as nat, |i: int| byte),
{
    let mut bytes: Vec<u8> = Vec::new();
    let mut index: usize = 0;
    while index < count
        invariant
            index <= count,
            bytes@ == Seq::new(index as nat, |i: int| byte),
        decreases count - index,
    {
        bytes.push(byte);
        index += 1;
        assert(bytes@ =~= Seq::new(index as nat, |i: int| byte));
    }
    bytes
}

pub(crate) fn fill32(byte: u8) -> (array: [u8; 32])
    ensures
        array == filled32(byte),
        array@ == Seq::new(32, |i: int| byte),
{
    let bytes: Vec<u8> = repeated(byte, 32);
    assert(bytes@.subrange(0, 32) =~= bytes@);
    array32_at(bytes.as_slice(), 0)
}

fn fill20(byte: u8) -> (array: [u8; 20])
    ensures
        array == filled20(byte),
{
    let bytes: Vec<u8> = repeated(byte, 20);
    assert(bytes@.subrange(0, 20) =~= bytes@);
    array20_at(bytes.as_slice(), 0)
}

/// The hash of the block before; nothing for the first.
pub fn parent_hash(seed: u64, kind: SyntheticCorpusKind, number: BlockNumber) -> (hash: BlockHash)
    ensures
        hash == parent_of(seed, kind, number.0),
{
    if number.0 <= 1 {
        BlockHash(fill32(0))
    } else {
        deterministic_hash("block", seed, kind, number.0 - 1, 0)
    }
}

/// The identity of a generated block.
pub open spec fn block_of(seed: u64, kind: SyntheticCorpusKind, number: BlockNumber) -> BlockRef {
    BlockRef {
        number,
        hash: hash_of("block"@, seed, kind, number.0, 0),
        parent_hash: parent_of(seed, kind, number.0),
        timestamp: sat(1_700_000_000 + 12 * number.0),
    }
}

/// The identity of a generated block, one every twelve seconds.
pub fn generated_block(seed: u64, kind: SyntheticCorpusKind, number: BlockNumber) -> (block:
    BlockRef)
    ensures
        block == block_of(seed, kind, number),
{
    let elapsed: u64 = match number.0.checked_mul(12) {
        Some(elapsed) => elapsed,
        None => u64::MAX,
    };
    BlockRef {
        number,
        hash: deterministic_hash("block", seed, kind, number.0, 0),
        parent_hash: parent_hash(seed, kind, number),
        timestamp: 1_700_000_000u64.saturating_add(elapsed),
    }
}

/// The pool that the swaps are in, byte by byte.
pub open spec fn pool_bytes() -> Seq<u8> {
    seq![
        0x88u8, 0xe6u8, 0xa0u8, 0xc2u8, 0xddu8, 0xd2u8, 0x6fu8, 0xeeu8, 0xb6u8, 0x4fu8, 0x03u8,
        0x9au8, 0x2cu8, 0x41u8, 0x29u8, 0x6fu8, 0xcbu8, 0x3fu8, 0x56u8, 0x40u8,
    ]
}

/// Uniswap V3 USDC/WETH 0.05% pool used by the reference benchmark.
pub fn uniswap_weth_usdc_pool() -> (pool: Address)
    ensures
        pool == Address(array20(pool_bytes())),
        pool.0@ == pool_bytes(),
{
    let mut bytes: Vec<u8> = Vec::new();
    bytes.push(0x88);
    bytes.push(0xe6);
    bytes.push(0xa0);
    bytes.push(0xc2);
    bytes.push(0xdd);
    bytes.push(0xd2);
    bytes.push(0x6f);
    bytes.push(0xee);
    bytes.push(0xb6);
    bytes.push(0x4f);
    bytes.push(0x03);
    bytes.push(0x9a);
    bytes.push(0x2c);
    bytes.push(0x41);
    bytes.push(0x29);
    bytes.push(0x6f);
    bytes.push(0xcb);
    bytes.push(0x3f);
    bytes.push(0x56);
    bytes.push(0x40);
    assert(bytes@ =~= pool_bytes());
    assert(bytes@.subrange(0, 20) =~= bytes@);
    Address(array20_at(bytes.as_slice(), 0))
}

/// The number that bytes write in big-endian order.
pub open spec fn number_of(bytes: Seq<u8>) -> nat
    decreases bytes.len(),
{
    if bytes.len() == 0 {
        0
    } else {
        256 * number_of(bytes.drop_last()) + bytes.last() as nat
    }
}

/// The 32 bytes that write a number in big-endian order.
pub open spec fn written(value: nat) -> [u8; 32] {
    choose|bytes: [u8; 32]| number_of(bytes@) == value
}

/// Calls `alloy_primitives::U256::saturating_mul` and `to_be_bytes`. Claims
/// that the product of two 64-bit numbers, which is far from 256 bits, comes
/// out whole, in big-endian order.
#[verifier::external_body]
fn product_bytes(left: u64, right: u64) -> (bytes: [u8; 32])
    ensures
        number_of(bytes@) == left as nat * right as nat,
{
    alloy_primitives::U256::from(left)
        .saturating_mul(alloy_primitives::U256::from(right))
        .to_be_bytes::<32>()
}

/// No two lists of as many bytes write the same number.
pub proof fn lemma_number_once(left: Seq<u8>, right: Seq<u8>)
    requires
        left.len() == right.len(),
        number_of(left) == number_of(right),
    ensures
        left == right,
    decreases left.len(),
{
    if left.len() > 0 {
        let high = number_of(left.drop_last());
        let low = number_of(right.drop_last());
        assert(high == low);
        lemma_number_once(left.drop_last(), right.drop_last());
        assert(left =~= left.drop_last().push(left.last()));
        assert(right =~= right.drop_last().push(right.last()));
    } else {
        assert(left =~= right);
    }
}

/// The price of a swap: 2^32 for each block and unit of the seed, at least
/// once.
pub open spec fn price_of(seed: u64, number: u64) -> [u8; 32] {
    let scale = sat(number + seed);
    written(
        0x1_0000_0000 * (if scale == 0 {
            1
        } else {
            scale as nat
        }),
    )
}

/// The price of a swap in a block.
pub fn swap_price(seed: u64, number: BlockNumber) -> (price: [u8; 32])
    ensures
        price == price_of(seed, number.0),
{
    let sum: u64 = number.0.saturating_add(seed);
    let scale: u64 = if sum == 0 {
        1
    } else {
        sum
    };
    let price: [u8; 32] = product_bytes(0x1_0000_0000, scale);
    proof {
        let chosen = written(number_of(price@));
        assert(number_of(chosen@) == number_of(price@));
        lemma_number_once(chosen@, price@);
        lemma_same_view_same_array(chosen, price);
    }
    price
}

/// The log that a transaction of a block emits, as the block's `log_index`th.
pub open spec fn log_of(
    kind: SyntheticCorpusKind,
    seed: u64,
    number: u64,
    index: u32,
    log_index: u32,
) -> LogView {
    let swap = kind == SyntheticCorpusKind::UniswapLike;
    LogView {
        address: if swap {
            Address(array20(pool_bytes()))
        } else {
            Address(filled20(0x88))
        },
        topics: seq![
            if swap {
                keccak256_digest(encode_utf8(swap_event()@))
            } else {
                filled32(0x55)
            },
        ],
        data: if swap {
            Seq::new(64, |i: int| 0u8) + price_of(seed, number)@ + Seq::new(64, |i: int| 0u8)
        } else {
            bytes_of(seed ^ 0x55, number, index, 96)
        },
        transaction_hash: Some(
            TransactionHash(hash_of("transaction"@, seed, kind, number, index).0),
        ),
        transaction_index: index,
        log_index,
    }
}

/// The event that a swap emits.
pub open spec fn swap_event() -> &'static str {
    "Swap(address,address,int256,int256,uint160,uint128,int24)"
}

/// The log that a transaction of a block emits, as the block's `log_index`th:
/// a swap, or 96 generated bytes.
pub fn generated_log(
    kind: SyntheticCorpusKind,
    seed: u64,
    number: BlockNumber,
    index: u32,
    log_index: u32,
) -> (log: Log)
    ensures
        log@ == log_of(kind, seed, number.0, index, log_index),
{
    let transaction_hash = Some(
        TransactionHash(deterministic_hash("transaction", seed, kind, number.0, index).0),
    );
    let mut topics: Vec<[u8; 32]> = Vec::new();
    if kind == SyntheticCorpusKind::UniswapLike {
        let mut data: Vec<u8> = repeated(0, 64);
        let price: [u8; 32] = swap_price(seed, number);
        push_bytes(&mut data, &price);
        let rest: Vec<u8> = repeated(0, 64);
        push_bytes(&mut data, rest.as_slice());
        topics.push(
            keccak256("Swap(address,address,int256,int256,uint160,uint128,int24)".as_bytes()),
        );
        assert(topics@ =~= log_of(kind, seed, number.0, index, log_index).topics);
        assert(data@ =~= log_of(kind, seed, number.0, index, log_index).data);
        return Log {
            address: uniswap_weth_usdc_pool(),
            topics,
            data,
            transaction_hash,
            transaction_index: index,
            log_index,
        };
    }
    topics.push(fill32(0x55));
    assert(topics@ =~= log_of(kind, seed, number.0, index, log_index).topics);
    Log {
        address: Address(fill20(0x88)),
        topics,
        data: deterministic_bytes(seed ^ 0x55, number.0, index, 96),
        transaction_hash,
        transaction_index: index,
        log_index,
    }
}

/// The logs of the first `count` transactions of a block, in order.
pub open spec fn logs_of(
    kind: SyntheticCorpusKind,
    seed: u64,
    number: u64,
    count: nat,
) -> Seq<LogView>
    decreases count,
{
    if count == 0 {
        Seq::empty()
    } else {
        let before = logs_of(kind, seed, number, (count - 1) as nat);
        if kind.emits(count - 1) {
            before.push(log_of(kind, seed, number, (count - 1) as u32, before.len() as u32))
        } else {
            before
        }
    }
}

/// The blobs of a transaction.
pub open spec fn blobs_of(
    kind: SyntheticCorpusKind,
    seed: u64,
    number: u64,
    index: u32,
) -> Seq<BlockHash> {
    Seq::new(
        kind.blobs(number, index as int) as nat,
        |blob: int| hash_of("blob"@, seed, kind, number, (4 * index + blob) as u32),
    )
}

/// The versioned hashes of a transaction's blobs.
pub fn generated_blobs(kind: SyntheticCorpusKind, seed: u64, number: BlockNumber, index: u32) -> (
    blobs: Vec<BlockHash>)
    requires
        index < 32,
    ensures
        blobs@ == blobs_of(kind, seed, number.0, index),
        blobs@.len() <= 3,
{
    let count: u32 = blob_count(kind, number.0, index);
    let mut blobs: Vec<BlockHash> = Vec::new();
    let mut blob: u32 = 0;
    while blob < count
        invariant
            index < 32,
            blob <= count,
            count <= 3,
            count == kind.blobs(number.0, index as int),
            blobs@ == blobs_of(kind, seed, number.0, index).take(blob as int),
        decreases count - blob,
    {
        blobs.push(deterministic_hash("blob", seed, kind, number.0, 4 * index + blob));
        blob += 1;
        assert(blobs@ =~= blobs_of(kind, seed, number.0, index).take(blob as int));
    }
    assert(blobs@ =~= blobs_of(kind, seed, number.0, index));
    blobs
}

/// A transaction of a generated block.
pub open spec fn transaction_of(
    kind: SyntheticCorpusKind,
    seed: u64,
    number: u64,
    index: u32,
) -> TransactionView {
    let payload = kind.payload(index as int);
    TransactionView {
        hash: TransactionHash(hash_of("transaction"@, seed, kind, number, index).0),
        transaction_type: if kind.has_blobs() {
            3
        } else {
            2
        },
        index,
        encoded: Some(bytes_of(seed, number, index, payload)),
        from: Some(Address(filled20(0x11))),
        to: Some(Address(filled20(0x22))),
        nonce: Some(sat(number + index)),
        gas_limit: Some(21_000),
        value: Some(Quantity::spec_of(1)),
        input: Some(bytes_of(seed ^ 0xa5a5_a5a5_a5a5_a5a5, number, index, payload / 2)),
        max_fee_per_gas: Some(Quantity::spec_of(20_000_000_000)),
        max_priority_fee_per_gas: Some(Quantity::spec_of(1_000_000_000)),
        max_fee_per_blob_gas: if kind.has_blobs() {
            Some(Quantity::spec_of(1))
        } else {
            None
        },
        blob_versioned_hashes: blobs_of(kind, seed, number, index),
        size_bytes: Some(payload as u32),
    }
}

fn generated_transaction(
    kind: SyntheticCorpusKind,
    seed: u64,
    number: BlockNumber,
    index: u32,
) -> (transaction: TransactionEnvelope)
    requires
        index < 32,
    ensures
        transaction@ == transaction_of(kind, seed, number.0, index),
        transaction.blob_versioned_hashes@.len() <= 3,
{
    let blob = is_blob_corpus(kind);
    let payload: usize = payload_bytes(kind, index);
    TransactionEnvelope {
        hash: TransactionHash(deterministic_hash("transaction", seed, kind, number.0, index).0),
        transaction_type: if blob {
            3
        } else {
            2
        },
        index,
        encoded: Some(deterministic_bytes(seed, number.0, index, payload)),
        from: Some(Address(fill20(0x11))),
        to: Some(Address(fill20(0x22))),
        nonce: Some(number.0.saturating_add(index as u64)),
        gas_limit: Some(21_000),
        value: Some(Quantity::of(1)),
        input: Some(
            deterministic_bytes(seed ^ 0xa5a5_a5a5_a5a5_a5a5, number.0, index, payload / 2),
        ),
        max_fee_per_gas: Some(Quantity::of(20_000_000_000)),
        max_priority_fee_per_gas: Some(Quantity::of(1_000_000_000)),
        max_fee_per_blob_gas: if blob {
            Some(Quantity::of(1))
        } else {
            None
        },
        blob_versioned_hashes: generated_blobs(kind, seed, number, index),
        size_bytes: Some(payload as u32),
    }
}

/// The receipt of a transaction, where the block has emitted so many logs
/// before.
pub open spec fn receipt_of(
    kind: SyntheticCorpusKind,
    seed: u64,
    number: u64,
    index: u32,
) -> ReceiptView {
    let before = logs_of(kind, seed, number, index as nat).len();
    ReceiptView {
        transaction_hash: TransactionHash(hash_of("transaction"@, seed, kind, number, index).0),
        transaction_type: if kind.has_blobs() {
            3
        } else {
            2
        },
        transaction_index: index,
        encoded: Some(bytes_of(seed ^ 0x33, number, index, 128)),
        success: Some(true),
        gas_used: Some(21_000),
        effective_gas_price: Some(Quantity::spec_of(2_000_000_000)),
        blob_gas_used: if kind.has_blobs() {
            Some((131_072 * kind.blobs(number, index as int)) as u64)
        } else {
            None
        },
        blob_gas_price: if kind.has_blobs() {
            Some(Quantity::spec_of(1))
        } else {
            None
        },
        logs: if kind.emits(index as int) {
            seq![log_of(kind, seed, number, index, before as u32)]
        } else {
            Seq::empty()
        },
    }
}

fn generated_receipt(
    kind: SyntheticCorpusKind,
    seed: u64,
    number: BlockNumber,
    index: u32,
    before: u32,
) -> (receipt: ReceiptEnvelope)
    requires
        index < 32,
        before == logs_of(kind, seed, number.0, index as nat).len(),
    ensures
        receipt@ == receipt_of(kind, seed, number.0, index),
{
    let blob = is_blob_corpus(kind);
    let mut logs: Vec<Log> = Vec::new();
    if emits_log(kind, index) {
        logs.push(generated_log(kind, seed, number, index, before));
    }
    let count: u32 = blob_count(kind, number.0, index);
    let receipt = ReceiptEnvelope {
        transaction_hash: TransactionHash(
            deterministic_hash("transaction", seed, kind, number.0, index).0,
        ),
        transaction_type: if blob {
            3
        } else {
            2
        },
        transaction_index: index,
        encoded: Some(deterministic_bytes(seed ^ 0x33, number.0, index, 128)),
        success: Some(true),
        gas_used: Some(21_000),
        effective_gas_price: Some(Quantity::of(2_000_000_000)),
        blob_gas_used: if blob {
            Some(131_072 * count as u64)
        } else {
            None
        },
        blob_gas_price: if blob {
            Some(Quantity::of(1))
        } else {
            None
        },
        logs,
    };
    assert(receipt@.logs =~= receipt_of(kind, seed, number.0, index).logs);
    receipt
}

/// The blob gas of the first `count` transactions of a block.
pub open spec fn blob_gas_of(kind: SyntheticCorpusKind, number: u64, count: nat) -> int
    decreases count,
{
    if count == 0 {
        0
    } else {
        blob_gas_of(kind, number, (count - 1) as nat) + 131_072 * kind.blobs(number, count - 1)
    }
}

/// A generated block.
pub open spec fn frame_of(kind: SyntheticCorpusKind, seed: u64, number: BlockNumber) -> FrameView {
    let count = kind.transactions(number.0) as nat;
    FrameView {
        chain_id: ChainId(1),
        block: block_of(seed, kind, number),
        finality: Finality::Finalized,
        header: MaterialView::Complete(
            HeaderView {
                rlp: Some(bytes_of(seed ^ 0x77, number.0, 0, 512)),
                transactions_root: Some(hash_of("tx-root"@, seed, kind, number.0, 0)),
                receipts_root: Some(hash_of("receipt-root"@, seed, kind, number.0, 0)),
                withdrawals_root: None,
                gas_limit: Some(30_000_000),
                gas_used: Some((21_000 * count) as u64),
                base_fee_per_gas: Some(Quantity::spec_of(10_000_000_000)),
                blob_gas_used: if kind.has_blobs() {
                    Some(blob_gas_of(kind, number.0, count) as u64)
                } else {
                    None
                },
                excess_blob_gas: Some(0),
                size_bytes: Some(1_024),
                transaction_count: Some(count as u32),
                consensus_size_bytes: None,
            },
        ),
        transactions: MaterialView::Complete(
            Seq::new(count, |index: int| transaction_of(kind, seed, number.0, index as u32)),
        ),
        receipts: MaterialView::Complete(
            Seq::new(count, |index: int| receipt_of(kind, seed, number.0, index as u32)),
        ),
        logs: MaterialView::Complete(logs_of(kind, seed, number.0, count)),
        withdrawals: MaterialView::Missing(MissingReason::NotRequested),
        blob_sidecars: MaterialView::Missing(MissingReason::NotRequested),
        traces: MaterialView::Missing(MissingReason::Unsupported),
        state_diffs: MaterialView::Missing(MissingReason::Unsupported),
        provenance: Seq::empty(),
    }
}

/// Generates one block: its transactions, their receipts and logs, and the
/// header over them.
pub fn generated_frame(kind: SyntheticCorpusKind, seed: u64, number: BlockNumber) -> (frame:
    BlockFrame)
    ensures
        frame@ == frame_of(kind, seed, number),
{
    let count: u32 = transaction_count(kind, number.0);
    let blob = is_blob_corpus(kind);
    let mut transactions: Vec<TransactionEnvelope> = Vec::new();
    let mut receipts: Vec<ReceiptEnvelope> = Vec::new();
    let mut logs: Vec<Log> = Vec::new();
    let mut blob_gas: u64 = 0;
    let ghost all_transactions = Seq::new(
        count as nat,
        |index: int| transaction_of(kind, seed, number.0, index as u32),
    );
    let ghost all_receipts = Seq::new(
        count as nat,
        |index: int| receipt_of(kind, seed, number.0, index as u32),
    );
    let mut index: u32 = 0;
    proof {
        assert(views(transactions@) =~= all_transactions.take(0));
        assert(views(receipts@) =~= all_receipts.take(0));
        assert(views(logs@) =~= logs_of(kind, seed, number.0, 0));
    }
    while index < count
        invariant
            index <= count,
            count <= 32,
            all_transactions == Seq::new(
                count as nat,
                |index: int| transaction_of(kind, seed, number.0, index as u32),
            ),
            all_receipts == Seq::new(
                count as nat,
                |index: int| receipt_of(kind, seed, number.0, index as u32),
            ),
            views(transactions@) == all_transactions.take(index as int),
            views(receipts@) == all_receipts.take(index as int),
            views(logs@) == logs_of(kind, seed, number.0, index as nat),
            logs@.len() <= index,
            blob_gas == blob_gas_of(kind, number.0, index as nat),
            blob_gas <= 393_216 * index,
        decreases count - index,
    {
        let transaction = generated_transaction(kind, seed, number, index);
        let before: u32 = logs.len() as u32;
        let receipt = generated_receipt(kind, seed, number, index, before);
        let blobs: u32 = blob_count(kind, number.0, index);
        blob_gas = blob_gas + 131_072 * blobs as u64;
        let ghost old_transactions = transactions@;
        let ghost old_receipts = receipts@;
        let ghost old_logs = logs@;
        transactions.push(transaction);
        receipts.push(receipt);
        if emits_log(kind, index) {
            logs.push(generated_log(kind, seed, number, index, before));
            assert(views(logs@) =~= views(old_logs).push(
                log_of(kind, seed, number.0, index, before),
            ));
        }
        index += 1;
        proof {
            let sent = transactions@.last()@;
            let received = receipts@.last()@;
            assert(views(transactions@) =~= views(old_transactions).push(sent));
            assert(all_transactions.take(index as int) =~= all_transactions.take(
                index - 1,
            ).push(sent));
            assert(views(receipts@) =~= views(old_receipts).push(received));
            assert(all_receipts.take(index as int) =~= all_receipts.take(index - 1).push(
                received,
            ));
            assert(views(logs@) == logs_of(kind, seed, number.0, index as nat));
        }
    }
    let frame = BlockFrame {
        chain_id: ChainId(1),
        block: generated_block(seed, kind, number),
        finality: Finality::Finalized,
        header: Material::Complete(
            HeaderEnvelope {
                rlp: Some(deterministic_bytes(seed ^ 0x77, number.0, 0, 512)),
                transactions_root: Some(deterministic_hash("tx-root", seed, kind, number.0, 0)),
                receipts_root: Some(deterministic_hash("receipt-root", seed, kind, number.0, 0)),
                withdrawals_root: None,
                gas_limit: Some(30_000_000),
                gas_used: Some(21_000 * count as u64),
                base_fee_per_gas: Some(Quantity::of(10_000_000_000)),
                blob_gas_used: if blob {
                    Some(blob_gas)
                } else {
                    None
                },
                excess_blob_gas: Some(0),
                size_bytes: Some(1_024),
                transaction_count: Some(count),
                consensus_size_bytes: None,
            },
        ),
        transactions: Material::Complete(transactions),
        receipts: Material::Complete(receipts),
        logs: Material::Complete(logs),
        withdrawals: Material::Missing(MissingReason::NotRequested),
        blob_sidecars: Material::Missing(MissingReason::NotRequested),
        traces: Material::Missing(MissingReason::Unsupported),
        state_diffs: Material::Missing(MissingReason::Unsupported),
        provenance: Vec::new(),
    };
    proof {
        assert(all_transactions.take(count as int) =~= all_transactions);
        assert(all_receipts.take(count as int) =~= all_receipts);
        assert(views(frame.provenance@) =~= Seq::empty());
        assert(frame@.transactions == frame_of(kind, seed, number).transactions);
        assert(frame@.receipts == frame_of(kind, seed, number).receipts);
        assert(frame@.header == frame_of(kind, seed, number).header);
    }
    frame
}

/// Generated blocks form a chain: each names the one before as its parent.
pub proof fn law_generated_blocks_are_linked(
    kind: SyntheticCorpusKind,
    seed: u64,
    number: BlockNumber,
)
    requires
        1 <= number.0 < u64::MAX,
    ensures
        frame_of(kind, seed, BlockNumber((number.0 + 1) as u64)).block.parent_hash == frame_of(
            kind,
            seed,
            number,
        ).block.hash,
{
}

} // verus!
