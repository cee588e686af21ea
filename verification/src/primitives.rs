//! Chain identities, block ranges, capabilities and trust levels.

use crate::bytes::{array32, array32_at, be64, push_bytes, push_u64, same_array};
use crate::order::Keyed;
use vstd::prelude::*;

verus! {

/// Numeric chain identity.
#[derive(Clone, Copy, Debug, PartialEq, Eq, Structural)]
pub struct ChainId(pub u64);

/// Height of a block.
#[derive(Clone, Copy, Debug, PartialEq, Eq, Structural)]
pub struct BlockNumber(pub u64);

/// Hash of a block header.
#[derive(Clone, Copy, Debug, Eq)]
pub struct BlockHash(pub [u8; 32]);

/// Hash of a transaction.
#[derive(Clone, Copy, Debug, Eq)]
pub struct TransactionHash(pub [u8; 32]);

/// Account address.
#[derive(Clone, Copy, Debug, Eq)]
pub struct Address(pub [u8; 20]);

/// Unsigned 256-bit amount in big-endian order.
#[derive(Clone, Copy, Debug, Eq)]
pub struct Quantity(pub [u8; 32]);

impl PartialEq for BlockHash {
    fn eq(&self, other: &Self) -> (same: bool) {
        same_array(&self.0, &other.0)
    }
}

impl vstd::std_specs::cmp::PartialEqSpecImpl for BlockHash {
    open spec fn obeys_eq_spec() -> bool {
        true
    }

    open spec fn eq_spec(&self, other: &Self) -> bool {
        *self == *other
    }
}

impl PartialEq for TransactionHash {
    fn eq(&self, other: &Self) -> (same: bool) {
        same_array(&self.0, &other.0)
    }
}

impl vstd::std_specs::cmp::PartialEqSpecImpl for TransactionHash {
    open spec fn obeys_eq_spec() -> bool {
        true
    }

    open spec fn eq_spec(&self, other: &Self) -> bool {
        *self == *other
    }
}

impl PartialEq for Address {
    fn eq(&self, other: &Self) -> (same: bool) {
        same_array(&self.0, &other.0)
    }
}

impl vstd::std_specs::cmp::PartialEqSpecImpl for Address {
    open spec fn obeys_eq_spec() -> bool {
        true
    }

    open spec fn eq_spec(&self, other: &Self) -> bool {
        *self == *other
    }
}

impl PartialEq for Quantity {
    fn eq(&self, other: &Self) -> (same: bool) {
        same_array(&self.0, &other.0)
    }
}

impl vstd::std_specs::cmp::PartialEqSpecImpl for Quantity {
    open spec fn obeys_eq_spec() -> bool {
        true
    }

    open spec fn eq_spec(&self, other: &Self) -> bool {
        *self == *other
    }
}

impl Quantity {
    /// The big-endian form of a number: 24 zero bytes, then its own 8.
    pub open spec fn spec_of(value: u64) -> Quantity {
        Quantity(array32(Seq::new(24, |i: int| 0u8) + be64(value)))
    }

    pub fn of(value: u64) -> (quantity: Quantity)
        ensures
            quantity == Quantity::spec_of(value),
            quantity.0@ == Seq::new(24, |i: int| 0u8) + be64(value),
    {
        let mut bytes: Vec<u8> = Vec::new();
        let mut index: usize = 0;
        while index < 24
            invariant
                index <= 24,
                bytes@ == Seq::new(index as nat, |i: int| 0u8),
            decreases 24 - index,
        {
            bytes.push(0);
            index += 1;
            assert(bytes@ =~= Seq::new(index as nat, |i: int| 0u8));
        }
        push_u64(&mut bytes, value);
        proof {
            assert(bytes@.subrange(0, 32) =~= bytes@);
        }
        Quantity(array32_at(bytes.as_slice(), 0))
    }
}

impl Keyed for Address {
    open spec fn key(&self) -> Seq<u8> {
        self.0@
    }

    fn key_bytes(&self) -> (bytes: Vec<u8>) {
        let mut bytes: Vec<u8> = Vec::new();
        push_bytes(&mut bytes, &self.0);
        assert(bytes@ =~= self.0@);
        bytes
    }
}

/// Inclusive, non-empty range of block heights.
#[derive(Clone, Copy, Debug, PartialEq, Eq, Structural)]
pub struct BlockRange {
    pub start: BlockNumber,
    pub end: BlockNumber,
}

/// A range whose end precedes its start.
#[derive(Clone, Copy, Debug, PartialEq, Eq, Structural)]
pub struct InvalidRange {
    pub start: BlockNumber,
    pub end: BlockNumber,
}

impl BlockRange {
    /// A range holds at least its start.
    pub open spec fn wf(self) -> bool {
        self.start.0 <= self.end.0
    }

    /// Whether `height` lies in the range.
    pub open spec fn has(self, height: int) -> bool {
        self.start.0 <= height <= self.end.0
    }

    /// Number of heights in the range, capped at the largest `u64`.
    pub open spec fn spec_len(self) -> u64 {
        if self.end.0 < self.start.0 {
            0
        } else if self.end.0 - self.start.0 == u64::MAX {
            u64::MAX
        } else {
            (self.end.0 - self.start.0 + 1) as u64
        }
    }

    /// Builds the range from `start` to `end`, both inclusive.
    pub fn new(start: BlockNumber, end: BlockNumber) -> (range: Result<BlockRange, InvalidRange>)
        ensures
            range == (if start.0 <= end.0 {
                Ok::<BlockRange, InvalidRange>(BlockRange { start, end })
            } else {
                Err(InvalidRange { start, end })
            }),
    {
        if start.0 <= end.0 {
            Ok(BlockRange { start, end })
        } else {
            Err(InvalidRange { start, end })
        }
    }

    /// The range of one block.
    pub fn single(block: BlockNumber) -> (range: BlockRange)
        ensures
            range == (BlockRange { start: block, end: block }),
    {
        BlockRange { start: block, end: block }
    }

    pub fn start(&self) -> (start: BlockNumber)
        ensures
            start == self.start,
    {
        self.start
    }

    pub fn end(&self) -> (end: BlockNumber)
        ensures
            end == self.end,
    {
        self.end
    }

    /// Number of blocks, saturating for the range of every height.
    pub fn len(&self) -> (len: u64)
        ensures
            len == self.spec_len(),
    {
        if self.end.0 < self.start.0 {
            0
        } else {
            (self.end.0 - self.start.0).saturating_add(1)
        }
    }

    pub fn contains(&self, block: BlockNumber) -> (inside: bool)
        ensures
            inside == self.has(block.0 as int),
    {
        self.start.0 <= block.0 && block.0 <= self.end.0
    }
}

/// One kind of material that a frame can carry.
#[derive(Clone, Copy, Debug, PartialEq, Eq, Structural)]
pub enum Capability {
    Header,
    Body,
    Transactions,
    Calldata,
    Receipts,
    Logs,
    Withdrawals,
    BlobSidecars,
    Traces,
    StateDiffs,
    Mempool,
}

impl Capability {
    /// The single bit that stands for this capability.
    pub open spec fn spec_bit(self) -> u16 {
        match self {
            Capability::Header => 0x001u16,
            Capability::Body => 0x002u16,
            Capability::Transactions => 0x004u16,
            Capability::Calldata => 0x008u16,
            Capability::Receipts => 0x010u16,
            Capability::Logs => 0x020u16,
            Capability::Withdrawals => 0x040u16,
            Capability::BlobSidecars => 0x080u16,
            Capability::Traces => 0x100u16,
            Capability::StateDiffs => 0x200u16,
            Capability::Mempool => 0x400u16,
        }
    }

    pub fn bit(self) -> (bit: u16)
        ensures
            bit == self.spec_bit(),
    {
        match self {
            Capability::Header => 0x001u16,
            Capability::Body => 0x002u16,
            Capability::Transactions => 0x004u16,
            Capability::Calldata => 0x008u16,
            Capability::Receipts => 0x010u16,
            Capability::Logs => 0x020u16,
            Capability::Withdrawals => 0x040u16,
            Capability::BlobSidecars => 0x080u16,
            Capability::Traces => 0x100u16,
            Capability::StateDiffs => 0x200u16,
            Capability::Mempool => 0x400u16,
        }
    }
}

/// Every bit that stands for a capability.
pub const CAPABILITY_BITS: u16 = 0x7ff;

/// Set of capabilities, one bit each.
#[derive(Clone, Copy, Debug, PartialEq, Eq, Structural)]
pub struct CapabilitySet {
    pub bits: u16,
}

impl CapabilitySet {
    pub open spec fn spec_none() -> CapabilitySet {
        CapabilitySet { bits: 0 }
    }

    pub open spec fn spec_all() -> CapabilitySet {
        CapabilitySet { bits: CAPABILITY_BITS }
    }

    pub open spec fn spec_of(capability: Capability) -> CapabilitySet {
        CapabilitySet { bits: capability.spec_bit() }
    }

    pub open spec fn spec_with(self, capability: Capability) -> CapabilitySet {
        CapabilitySet { bits: self.bits | capability.spec_bit() }
    }

    pub open spec fn has(self, capability: Capability) -> bool {
        self.bits & capability.spec_bit() != 0
    }

    pub open spec fn has_all(self, required: CapabilitySet) -> bool {
        self.bits & required.bits == required.bits
    }

    /// The set extended by what its members carry: complete transactions hold
    /// the body and the call data, complete receipts hold the logs.
    pub open spec fn derivable(self) -> CapabilitySet {
        let with_body = if self.has(Capability::Transactions) {
            self.spec_with(Capability::Body).spec_with(Capability::Calldata)
        } else {
            self
        };
        if self.has(Capability::Receipts) {
            with_body.spec_with(Capability::Logs)
        } else {
            with_body
        }
    }

    pub fn none() -> (set: CapabilitySet)
        ensures
            set == CapabilitySet::spec_none(),
    {
        CapabilitySet { bits: 0 }
    }

    pub fn all() -> (set: CapabilitySet)
        ensures
            set == CapabilitySet::spec_all(),
    {
        CapabilitySet { bits: CAPABILITY_BITS }
    }

    pub fn of(capability: Capability) -> (set: CapabilitySet)
        ensures
            set == CapabilitySet::spec_of(capability),
    {
        CapabilitySet { bits: capability.bit() }
    }

    /// The set with these bits, unless one of them stands for no capability.
    pub fn from_bits(bits: u16) -> (set: Option<CapabilitySet>)
        ensures
            set == (if bits & !CAPABILITY_BITS == 0 {
                Some(CapabilitySet { bits })
            } else {
                None
            }),
    {
        if bits & !CAPABILITY_BITS == 0 {
            Some(CapabilitySet { bits })
        } else {
            None
        }
    }

    pub fn bits(self) -> (bits: u16)
        ensures
            bits == self.bits,
    {
        self.bits
    }

    pub fn with(self, capability: Capability) -> (set: CapabilitySet)
        ensures
            set == self.spec_with(capability),
    {
        CapabilitySet { bits: self.bits | capability.bit() }
    }

    pub fn contains(self, capability: Capability) -> (inside: bool)
        ensures
            inside == self.has(capability),
    {
        self.bits & capability.bit() != 0
    }

    pub fn contains_all(self, required: CapabilitySet) -> (inside: bool)
        ensures
            inside == self.has_all(required),
    {
        self.bits & required.bits == required.bits
    }

    pub fn union(self, other: CapabilitySet) -> (set: CapabilitySet)
        ensures
            set == (CapabilitySet { bits: self.bits | other.bits }),
    {
        CapabilitySet { bits: self.bits | other.bits }
    }

    pub fn intersection(self, other: CapabilitySet) -> (set: CapabilitySet)
        ensures
            set == (CapabilitySet { bits: self.bits & other.bits }),
    {
        CapabilitySet { bits: self.bits & other.bits }
    }

    pub fn with_derivable(self) -> (set: CapabilitySet)
        ensures
            set == self.derivable(),
    {
        let mut set = self;
        if self.contains(Capability::Transactions) {
            set = set.with(Capability::Body).with(Capability::Calldata);
        }
        if self.contains(Capability::Receipts) {
            set = set.with(Capability::Logs);
        }
        set
    }
}

/// What a set offers never shrinks when derivable material is counted.
pub proof fn law_derivable_extends(set: CapabilitySet)
    ensures
        set.derivable().has_all(set),
        set.derivable().derivable() == set.derivable(),
{
    let bits = set.bits;
    assert((bits | 0x002u16 | 0x008u16 | 0x020u16) & bits == bits) by (bit_vector);
    assert((bits | 0x002u16 | 0x008u16) & bits == bits) by (bit_vector);
    assert((bits | 0x020u16) & bits == bits) by (bit_vector);
    assert(bits & bits == bits) by (bit_vector);
    let one = set.derivable().bits;
    assert((bits & 0x004u16 != 0) == (one & 0x004u16 != 0) && (bits & 0x010u16 != 0) == (one
        & 0x010u16 != 0)) by (bit_vector)
        requires
            one == bits || one == (bits | 0x002u16 | 0x008u16) || one == (bits | 0x020u16) || one
                == (bits | 0x002u16 | 0x008u16 | 0x020u16),
    ;
    assert((bits | 0x002u16 | 0x008u16) | 0x002u16 | 0x008u16 == (bits | 0x002u16 | 0x008u16))
        by (bit_vector);
    assert((bits | 0x020u16) | 0x020u16 == (bits | 0x020u16)) by (bit_vector);
    assert((bits | 0x002u16 | 0x008u16 | 0x020u16) | 0x002u16 | 0x008u16 | 0x020u16 == (bits
        | 0x002u16 | 0x008u16 | 0x020u16)) by (bit_vector);
}

/// How settled a block is.
#[derive(Clone, Copy, Debug, PartialEq, Eq, Structural)]
pub enum Finality {
    Optimistic,
    Finalized,
}

impl Finality {
    pub open spec fn spec_tag(self) -> u8 {
        match self {
            Finality::Optimistic => 0u8,
            Finality::Finalized => 1u8,
        }
    }

    /// The byte that stands for this state in a file header.
    pub fn tag(self) -> (tag: u8)
        ensures
            tag == self.spec_tag(),
    {
        match self {
            Finality::Optimistic => 0u8,
            Finality::Finalized => 1u8,
        }
    }
}

/// How far a source's material is trusted, from least to most.
#[derive(Clone, Copy, Debug, PartialEq, Eq, Structural)]
pub enum TrustModel {
    Untrusted,
    TrustedManifest,
    TrustedDataset,
    ProtocolVerified,
}

impl TrustModel {
    pub open spec fn spec_rank(self) -> u8 {
        match self {
            TrustModel::Untrusted => 0u8,
            TrustModel::TrustedManifest => 1u8,
            TrustModel::TrustedDataset => 2u8,
            TrustModel::ProtocolVerified => 3u8,
        }
    }

    /// Position in the order, which is also the encoded byte.
    pub fn rank(self) -> (rank: u8)
        ensures
            rank == self.spec_rank(),
    {
        match self {
            TrustModel::Untrusted => 0u8,
            TrustModel::TrustedManifest => 1u8,
            TrustModel::TrustedDataset => 2u8,
            TrustModel::ProtocolVerified => 3u8,
        }
    }

    pub open spec fn spec_from_rank(rank: u8) -> Option<TrustModel> {
        match rank {
            0u8 => Some(TrustModel::Untrusted),
            1u8 => Some(TrustModel::TrustedManifest),
            2u8 => Some(TrustModel::TrustedDataset),
            3u8 => Some(TrustModel::ProtocolVerified),
            _ => None,
        }
    }

    /// The level encoded by `rank`, if there is one.
    pub fn from_rank(rank: u8) -> (trust: Option<TrustModel>)
        ensures
            trust == TrustModel::spec_from_rank(rank),
    {
        match rank {
            0u8 => Some(TrustModel::Untrusted),
            1u8 => Some(TrustModel::TrustedManifest),
            2u8 => Some(TrustModel::TrustedDataset),
            3u8 => Some(TrustModel::ProtocolVerified),
            _ => None,
        }
    }

    /// The weaker of two levels.
    pub fn weaker(self, other: TrustModel) -> (trust: TrustModel)
        ensures
            trust == (if self.spec_rank() <= other.spec_rank() {
                self
            } else {
                other
            }),
    {
        if self.rank() <= other.rank() {
            self
        } else {
            other
        }
    }
}

/// Canonical identity of one block.
#[derive(Clone, Copy, Debug, Eq)]
pub struct BlockRef {
    pub number: BlockNumber,
    pub hash: BlockHash,
    pub parent_hash: BlockHash,
    pub timestamp: u64,
}

impl PartialEq for BlockRef {
    fn eq(&self, other: &Self) -> (same: bool) {
        self.number == other.number && self.hash == other.hash && self.parent_hash
            == other.parent_hash && self.timestamp == other.timestamp
    }
}

impl vstd::std_specs::cmp::PartialEqSpecImpl for BlockRef {
    open spec fn obeys_eq_spec() -> bool {
        true
    }

    open spec fn eq_spec(&self, other: &Self) -> bool {
        *self == *other
    }
}

} // verus!
