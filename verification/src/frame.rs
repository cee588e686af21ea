//! Normalized block frames: identity, material and provenance.

use crate::history::segment::FrameFacts;
use crate::primitives::{
    Address, BlockHash, BlockRange, BlockRef, Capability, CapabilitySet, ChainId, Finality,
    Quantity, TransactionHash, TrustModel, CAPABILITY_BITS,
};
use crate::request::{FilterScope, SourceKind};
use vstd::prelude::*;

verus! {

/// Why material is absent.
#[derive(Clone, Copy, Debug, PartialEq, Eq, Structural)]
pub enum MissingReason {
    NotRequested,
    Unsupported,
}

/// Who vouches that filtered material is all there is within its scope.
#[derive(Clone, Copy, Debug, PartialEq, Eq, Structural)]
pub enum Completeness {
    DatasetDeclared,
}

/// One kind of a frame's content: absent, a filtered part, or all of it.
#[derive(Debug)]
pub enum Material<T> {
    Missing(MissingReason),
    Filtered { value: T, scope: FilterScope, completeness: Completeness },
    Complete(T),
}

impl<T> Material<T> {
    pub open spec fn spec_present(self) -> bool {
        !(self is Missing)
    }

    pub open spec fn spec_complete(self) -> bool {
        self is Complete
    }

    /// Whether any of the material is there.
    pub fn is_present(&self) -> (present: bool)
        ensures
            present == self.spec_present(),
    {
        match self {
            Material::Missing(_) => false,
            _ => true,
        }
    }

    /// Whether all of the material is there.
    pub fn is_complete(&self) -> (complete: bool)
        ensures
            complete == self.spec_complete(),
    {
        match self {
            Material::Complete(_) => true,
            _ => false,
        }
    }
}

/// Canonical header fields, each as far as it is known.
#[derive(Debug)]
pub struct HeaderEnvelope {
    pub rlp: Option<Vec<u8>>,
    pub transactions_root: Option<BlockHash>,
    pub receipts_root: Option<BlockHash>,
    pub withdrawals_root: Option<BlockHash>,
    pub gas_limit: Option<u64>,
    pub gas_used: Option<u64>,
    pub base_fee_per_gas: Option<Quantity>,
    pub blob_gas_used: Option<u64>,
    pub excess_blob_gas: Option<u64>,
    pub size_bytes: Option<u64>,
    pub transaction_count: Option<u32>,
    pub consensus_size_bytes: Option<u64>,
}

/// One transaction of a block.
#[derive(Debug)]
pub struct TransactionEnvelope {
    pub hash: TransactionHash,
    pub transaction_type: u8,
    pub index: u32,
    pub encoded: Option<Vec<u8>>,
    pub from: Option<Address>,
    pub to: Option<Address>,
    pub nonce: Option<u64>,
    pub gas_limit: Option<u64>,
    pub value: Option<Quantity>,
    pub input: Option<Vec<u8>>,
    pub max_fee_per_gas: Option<Quantity>,
    pub max_priority_fee_per_gas: Option<Quantity>,
    pub max_fee_per_blob_gas: Option<Quantity>,
    pub blob_versioned_hashes: Vec<BlockHash>,
    pub size_bytes: Option<u32>,
}

/// One event log.
#[derive(Debug)]
pub struct Log {
    pub address: Address,
    pub topics: Vec<[u8; 32]>,
    pub data: Vec<u8>,
    pub transaction_hash: Option<TransactionHash>,
    pub transaction_index: u32,
    pub log_index: u32,
}

/// The receipt of one transaction.
#[derive(Debug)]
pub struct ReceiptEnvelope {
    pub transaction_hash: TransactionHash,
    pub transaction_type: u8,
    pub transaction_index: u32,
    pub encoded: Option<Vec<u8>>,
    pub success: Option<bool>,
    pub gas_used: Option<u64>,
    pub effective_gas_price: Option<Quantity>,
    pub blob_gas_used: Option<u64>,
    pub blob_gas_price: Option<Quantity>,
    pub logs: Vec<Log>,
}

/// One validator withdrawal.
#[derive(Clone, Copy, Debug)]
pub struct Withdrawal {
    pub index: u64,
    pub validator_index: u64,
    pub address: Address,
    pub amount: u64,
}

/// The object that material was read from.
#[derive(Debug)]
pub struct ObjectIdentity {
    pub locator: String,
    pub version: Option<String>,
    pub checksum: Option<BlockHash>,
    pub schema: Option<String>,
}

/// Where a frame's material came from.
#[derive(Debug)]
pub struct Provenance {
    pub source_id: String,
    pub source_kind: SourceKind,
    pub trust: TrustModel,
    pub range: Option<BlockRange>,
    pub object: Option<ObjectIdentity>,
    pub observed_at_unix_ms: u64,
    pub projection: Vec<String>,
}

/// One normalized block with the material that was acquired for it.
#[derive(Debug)]
pub struct BlockFrame {
    pub chain_id: ChainId,
    pub block: BlockRef,
    pub finality: Finality,
    pub header: Material<HeaderEnvelope>,
    pub transactions: Material<Vec<TransactionEnvelope>>,
    pub receipts: Material<Vec<ReceiptEnvelope>>,
    pub logs: Material<Vec<Log>>,
    pub withdrawals: Material<Vec<Withdrawal>>,
    pub blob_sidecars: Material<Vec<Vec<u8>>>,
    pub traces: Material<Vec<Vec<u8>>>,
    pub state_diffs: Material<Vec<Vec<u8>>>,
    pub provenance: Vec<Provenance>,
}

/// The capabilities that a frame's material gives.
#[derive(Clone, Copy, Debug, PartialEq, Eq, Structural)]
pub struct FrameCapabilities {
    pub present: CapabilitySet,
    pub complete: CapabilitySet,
}

/// A set with `capability`, where the flag says so.
pub open spec fn with_if(set: CapabilitySet, capability: Capability, flag: bool) -> CapabilitySet {
    if flag {
        set.spec_with(capability)
    } else {
        set
    }
}

fn include_if(set: CapabilitySet, capability: Capability, flag: bool) -> (extended: CapabilitySet)
    ensures
        extended == with_if(set, capability, flag),
{
    if flag {
        set.with(capability)
    } else {
        set
    }
}

/// The set of the capabilities whose material is flagged.
pub open spec fn material_set(
    header: bool,
    transactions: bool,
    receipts: bool,
    logs: bool,
    withdrawals: bool,
    blob_sidecars: bool,
    traces: bool,
    state_diffs: bool,
) -> CapabilitySet {
    let one = with_if(CapabilitySet::spec_none(), Capability::Header, header);
    let two = with_if(one, Capability::Transactions, transactions);
    let three = with_if(two, Capability::Receipts, receipts);
    let four = with_if(three, Capability::Logs, logs);
    let five = with_if(four, Capability::Withdrawals, withdrawals);
    let six = with_if(five, Capability::BlobSidecars, blob_sidecars);
    let seven = with_if(six, Capability::Traces, traces);
    with_if(seven, Capability::StateDiffs, state_diffs)
}

fn collect_set(
    header: bool,
    transactions: bool,
    receipts: bool,
    logs: bool,
    withdrawals: bool,
    blob_sidecars: bool,
    traces: bool,
    state_diffs: bool,
) -> (set: CapabilitySet)
    ensures
        set == material_set(
            header,
            transactions,
            receipts,
            logs,
            withdrawals,
            blob_sidecars,
            traces,
            state_diffs,
        ),
{
    let one = include_if(CapabilitySet::none(), Capability::Header, header);
    let two = include_if(one, Capability::Transactions, transactions);
    let three = include_if(two, Capability::Receipts, receipts);
    let four = include_if(three, Capability::Logs, logs);
    let five = include_if(four, Capability::Withdrawals, withdrawals);
    let six = include_if(five, Capability::BlobSidecars, blob_sidecars);
    let seven = include_if(six, Capability::Traces, traces);
    include_if(seven, Capability::StateDiffs, state_diffs)
}

proof fn lemma_with_known(set: CapabilitySet, capability: Capability, flag: bool)
    requires
        set.bits & !CAPABILITY_BITS == 0,
    ensures
        with_if(set, capability, flag).bits & !CAPABILITY_BITS == 0,
{
    let old_bits = set.bits;
    let new_bits = capability.spec_bit();
    assert(0x001u16 & !0x7ffu16 == 0 && 0x002u16 & !0x7ffu16 == 0 && 0x004u16 & !0x7ffu16 == 0
        && 0x008u16 & !0x7ffu16 == 0 && 0x010u16 & !0x7ffu16 == 0 && 0x020u16 & !0x7ffu16 == 0
        && 0x040u16 & !0x7ffu16 == 0 && 0x080u16 & !0x7ffu16 == 0 && 0x100u16 & !0x7ffu16 == 0
        && 0x200u16 & !0x7ffu16 == 0 && 0x400u16 & !0x7ffu16 == 0) by (bit_vector);
    assert((old_bits | new_bits) & !0x7ffu16 == 0) by (bit_vector)
        requires
            old_bits & !0x7ffu16 == 0,
            new_bits & !0x7ffu16 == 0,
    ;
}

/// Material gives known capabilities only.
pub proof fn lemma_material_set_known(
    header: bool,
    transactions: bool,
    receipts: bool,
    logs: bool,
    withdrawals: bool,
    blob_sidecars: bool,
    traces: bool,
    state_diffs: bool,
)
    ensures
        material_set(
            header,
            transactions,
            receipts,
            logs,
            withdrawals,
            blob_sidecars,
            traces,
            state_diffs,
        ).bits & !CAPABILITY_BITS == 0,
{
    let none = CapabilitySet::spec_none();
    assert(0u16 & !0x7ffu16 == 0) by (bit_vector);
    lemma_with_known(none, Capability::Header, header);
    let one = with_if(none, Capability::Header, header);
    lemma_with_known(one, Capability::Transactions, transactions);
    let two = with_if(one, Capability::Transactions, transactions);
    lemma_with_known(two, Capability::Receipts, receipts);
    let three = with_if(two, Capability::Receipts, receipts);
    lemma_with_known(three, Capability::Logs, logs);
    let four = with_if(three, Capability::Logs, logs);
    lemma_with_known(four, Capability::Withdrawals, withdrawals);
    let five = with_if(four, Capability::Withdrawals, withdrawals);
    lemma_with_known(five, Capability::BlobSidecars, blob_sidecars);
    let six = with_if(five, Capability::BlobSidecars, blob_sidecars);
    lemma_with_known(six, Capability::Traces, traces);
    let seven = with_if(six, Capability::Traces, traces);
    lemma_with_known(seven, Capability::StateDiffs, state_diffs);
}

impl BlockFrame {
    pub open spec fn spec_present(self) -> CapabilitySet {
        material_set(
            self.header.spec_present(),
            self.transactions.spec_present(),
            self.receipts.spec_present(),
            self.logs.spec_present(),
            self.withdrawals.spec_present(),
            self.blob_sidecars.spec_present(),
            self.traces.spec_present(),
            self.state_diffs.spec_present(),
        )
    }

    pub open spec fn spec_complete(self) -> CapabilitySet {
        material_set(
            self.header.spec_complete(),
            self.transactions.spec_complete(),
            self.receipts.spec_complete(),
            self.logs.spec_complete(),
            self.withdrawals.spec_complete(),
            self.blob_sidecars.spec_complete(),
            self.traces.spec_complete(),
            self.state_diffs.spec_complete(),
        )
    }

    /// What material is there, and what of it is complete.
    pub fn capabilities(&self) -> (capabilities: FrameCapabilities)
        ensures
            capabilities.present == self.spec_present(),
            capabilities.complete == self.spec_complete(),
            capabilities.present.bits & !CAPABILITY_BITS == 0,
            capabilities.complete.bits & !CAPABILITY_BITS == 0,
    {
        proof {
            lemma_material_set_known(
                self.header.spec_present(),
                self.transactions.spec_present(),
                self.receipts.spec_present(),
                self.logs.spec_present(),
                self.withdrawals.spec_present(),
                self.blob_sidecars.spec_present(),
                self.traces.spec_present(),
                self.state_diffs.spec_present(),
            );
            lemma_material_set_known(
                self.header.spec_complete(),
                self.transactions.spec_complete(),
                self.receipts.spec_complete(),
                self.logs.spec_complete(),
                self.withdrawals.spec_complete(),
                self.blob_sidecars.spec_complete(),
                self.traces.spec_complete(),
                self.state_diffs.spec_complete(),
            );
        }
        FrameCapabilities {
            present: collect_set(
                self.header.is_present(),
                self.transactions.is_present(),
                self.receipts.is_present(),
                self.logs.is_present(),
                self.withdrawals.is_present(),
                self.blob_sidecars.is_present(),
                self.traces.is_present(),
                self.state_diffs.is_present(),
            ),
            complete: collect_set(
                self.header.is_complete(),
                self.transactions.is_complete(),
                self.receipts.is_complete(),
                self.logs.is_complete(),
                self.withdrawals.is_complete(),
                self.blob_sidecars.is_complete(),
                self.traces.is_complete(),
                self.state_diffs.is_complete(),
            ),
        }
    }

    pub open spec fn spec_facts(self, shape_problem: Option<&'static str>) -> FrameFacts {
        FrameFacts {
            chain_id: self.chain_id,
            block: self.block,
            finality: self.finality,
            present: self.spec_present(),
            complete: self.spec_complete(),
            shape_problem,
        }
    }

    /// What a segment reads of the frame, beside the fault that its shape
    /// check found.
    pub fn facts(&self, shape_problem: Option<&'static str>) -> (facts: FrameFacts)
        ensures
            facts == self.spec_facts(shape_problem),
    {
        let capabilities = self.capabilities();
        FrameFacts {
            chain_id: self.chain_id,
            block: self.block,
            finality: self.finality,
            present: capabilities.present,
            complete: capabilities.complete,
            shape_problem,
        }
    }
}

} // verus!
