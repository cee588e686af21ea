//! Synthetic processors.

use crate::artifacts::segment::ProcessorContract;
use crate::bytes::{be64, from_be64, lemma_be64_round_trip, push_bytes, push_u64, u64_at};
use crate::digest::{blake3_digest, blake3_hash};
use crate::frame::{BlockFrame, Material};
use crate::primitives::{
    BlockHash, BlockNumber, BlockRef, Capability, CapabilitySet, ChainId, Finality,
};
use crate::testkit::corpus::{fill32, filled32};
use crate::testkit::events::{encode_ordered, ordered_key};
use crate::testkit::reducer::{
    copy_bytes, keys_ordered, law_put_is_got, lemma_with_value_ordered, value_of, with_value,
    ChangeOperation, ChangeView, DomainChange, MemoryReducer, ReducerView,
};
use crate::text::{joined, same_text};
use vstd::prelude::*;
use vstd::utf8::encode_utf8;

verus! {

/// How a processor reduces its deltas.
#[derive(Clone, Copy, Debug, PartialEq, Eq, Structural)]
pub enum ReductionMode {
    BlockLocal,
    OrderedState,
}

/// In which order a processor's changes are delivered.
#[derive(Clone, Copy, Debug, PartialEq, Eq, Structural)]
pub enum DeliveryOrdering {
    BlockVersionedIdempotent,
    Canonical,
}

/// When a processor publishes.
#[derive(Clone, Copy, Debug, PartialEq, Eq, Structural)]
pub enum PublicationPolicy {
    OptimisticAndFinalized,
    FinalizedOnly,
}

/// What is kept of a processor's output, and to whom it is delivered.
#[derive(Debug)]
pub struct LifecyclePolicies {
    pub keeps_output: bool,
    pub delivers: bool,
    pub consumers: Vec<String>,
    pub delivery_max_bytes: u64,
}

/// What a processor is and what it needs.
#[derive(Debug)]
pub struct ProcessorDescriptor {
    pub instance: String,
    pub id: String,
    pub version: String,
    pub code_hash: BlockHash,
    pub config_hash: BlockHash,
    pub capabilities: CapabilitySet,
    pub mode: ReductionMode,
    pub delivery_ordering: DeliveryOrdering,
    pub publication: PublicationPolicy,
    pub lifecycle: LifecyclePolicies,
    pub delta_version: u16,
    pub entity_schema: String,
    pub change_schema: String,
}

impl ProcessorDescriptor {
    /// The descriptor of a synthetic processor, but for its lifecycle. That
    /// the instance goes by the processor's own identifier, whatever its
    /// version and configuration, is this library's choice.
    pub open spec fn is_synthetic(
        self,
        id: Seq<char>,
        capabilities: CapabilitySet,
        mode: ReductionMode,
    ) -> bool {
        &&& self.instance@ == id
        &&& self.id@ == id
        &&& self.version@ == "1.0.0"@
        &&& self.code_hash == BlockHash(filled32(0x11))
        &&& self.config_hash == BlockHash(filled32(0x22))
        &&& self.capabilities == capabilities
        &&& self.mode == mode
        &&& self.delivery_ordering == (if mode == ReductionMode::BlockLocal {
            DeliveryOrdering::BlockVersionedIdempotent
        } else {
            DeliveryOrdering::Canonical
        })
        &&& self.publication == PublicationPolicy::OptimisticAndFinalized
        &&& self.delta_version == 1
        &&& self.entity_schema@ == id + ".entity.v1"@
        &&& self.change_schema@ == id + ".change.v1"@
    }

    /// The contract under which the processor's deltas are kept.
    pub fn contract(&self) -> (contract: ProcessorContract)
        ensures
            contract.id@ == self.id@,
            contract.instance@ == self.instance@,
            contract.version@ == self.version@,
            contract.code_hash == self.code_hash,
            contract.config_hash == self.config_hash,
            contract.delta_schema_version == self.delta_version,
    {
        ProcessorContract {
            id: self.id.clone(),
            instance: self.instance.clone(),
            version: self.version.clone(),
            code_hash: self.code_hash,
            config_hash: self.config_hash,
            delta_schema_version: self.delta_version,
        }
    }
}

fn synthetic_descriptor(id: &str, capabilities: CapabilitySet, mode: ReductionMode) -> (descriptor:
    ProcessorDescriptor)
    ensures
        descriptor.is_synthetic(id@, capabilities, mode),
        descriptor.lifecycle.keeps_output,
        descriptor.lifecycle.delivers,
        descriptor.lifecycle.consumers@.len() == 0,
        descriptor.lifecycle.delivery_max_bytes == u64::MAX,
{
    ProcessorDescriptor {
        instance: id.to_owned(),
        id: id.to_owned(),
        version: "1.0.0".to_owned(),
        code_hash: BlockHash(fill32(0x11)),
        config_hash: BlockHash(fill32(0x22)),
        capabilities,
        mode,
        delivery_ordering: if mode == ReductionMode::BlockLocal {
            DeliveryOrdering::BlockVersionedIdempotent
        } else {
            DeliveryOrdering::Canonical
        },
        publication: PublicationPolicy::OptimisticAndFinalized,
        lifecycle: LifecyclePolicies {
            keeps_output: true,
            delivers: true,
            consumers: Vec::new(),
            delivery_max_bytes: u64::MAX,
        },
        delta_version: 1,
        entity_schema: joined(id, ".entity.v1"),
        change_schema: joined(id, ".change.v1"),
    }
}

/// Why a processor refuses.
#[derive(Clone, Copy, Debug)]
pub enum ProcessorError {
    Input(&'static str),
    Delta,
    DeltaPayload(&'static str),
    State(&'static str),
    /// The ordered reducer expected another block.
    Invariant { expected: u64, received: u64 },
    CursorMismatch,
}

/// What a processor makes of one block, and whether it still holds under the
/// processor's contract.
#[derive(Debug)]
pub struct ProcessorDelta {
    pub chain_id: ChainId,
    pub block: BlockRef,
    pub payload: Vec<u8>,
    pub valid: bool,
}

/// How far a processor has come.
#[derive(Debug)]
pub struct ProcessorCursor {
    pub processor_id: String,
    pub processor_version: String,
    pub chain_id: ChainId,
    pub block_number: BlockNumber,
    pub block_hash: BlockHash,
    pub finality: Finality,
    pub sequence: u64,
}

/// A frame holds all that a processor needs.
pub open spec fn suffices(descriptor: ProcessorDescriptor, frame: BlockFrame) -> bool {
    frame.spec_complete().has_all(descriptor.capabilities)
}

/// Refuses a frame that lacks complete material that the processor needs.
pub fn validate_requirements(descriptor: &ProcessorDescriptor, frame: &BlockFrame) -> (outcome:
    Result<(), ProcessorError>)
    ensures
        outcome == (if suffices(*descriptor, *frame) {
            Ok::<(), ProcessorError>(())
        } else {
            Err(ProcessorError::Input("frame lacks required complete material"))
        }),
{
    if frame.capabilities().complete.contains_all(descriptor.capabilities) {
        Ok(())
    } else {
        Err(ProcessorError::Input("frame lacks required complete material"))
    }
}

/// Why a delta cannot be reduced at a cursor, if it cannot.
pub open spec fn cursor_problem(
    descriptor: ProcessorDescriptor,
    cursor: ProcessorCursor,
    delta: ProcessorDelta,
) -> Option<ProcessorError> {
    if !delta.valid {
        Some(ProcessorError::Delta)
    } else if cursor.processor_id@ != descriptor.id@ || cursor.processor_version@
        != descriptor.version@ || cursor.chain_id != delta.chain_id || cursor.block_number
        != delta.block.number || cursor.block_hash != delta.block.hash {
        Some(ProcessorError::CursorMismatch)
    } else {
        None
    }
}

/// Refuses a delta that is invalid or that the cursor does not stand at.
pub fn validate_delta_cursor(
    descriptor: &ProcessorDescriptor,
    cursor: &ProcessorCursor,
    delta: &ProcessorDelta,
) -> (outcome: Result<(), ProcessorError>)
    ensures
        outcome == (match cursor_problem(*descriptor, *cursor, *delta) {
            Some(error) => Err::<(), ProcessorError>(error),
            None => Ok(()),
        }),
{
    if !delta.valid {
        return Err(ProcessorError::Delta);
    }
    if !same_text(cursor.processor_id.as_str(), descriptor.id.as_str()) || !same_text(
        cursor.processor_version.as_str(),
        descriptor.version.as_str(),
    ) || cursor.chain_id != delta.chain_id || cursor.block_number != delta.block.number
        || cursor.block_hash != delta.block.hash {
        return Err(ProcessorError::CursorMismatch);
    }
    Ok(())
}

/// Counts the transactions of each block on its own.
#[derive(Debug)]
pub struct BlockLocalCounter {
    pub descriptor: ProcessorDescriptor,
}

impl Default for BlockLocalCounter {
    fn default() -> (counter: BlockLocalCounter)
        ensures
            counter.descriptor.is_synthetic(
                "synthetic-counter"@,
                CapabilitySet::spec_of(Capability::Transactions),
                ReductionMode::BlockLocal,
            ),
    {
        BlockLocalCounter::named("synthetic-counter")
    }
}

/// What the counter's reduction leaves behind.
pub open spec fn counter_reduced(before: ReducerView, delta: ProcessorDelta) -> ReducerView {
    let key = ordered_key(delta.chain_id, delta.block);
    ReducerView {
        entities: with_value(before.entities, "counter.blocks"@, key, delta.payload@),
        emitted: before.emitted.push(
            ChangeView {
                kind: "synthetic.counter"@,
                key,
                operation: ChangeOperation::Upsert,
                payload: delta.payload@,
            },
        ),
        ..before
    }
}

impl BlockLocalCounter {
    /// Constructs an independent counter instance with the same material
    /// requirements.
    pub fn named(id: &str) -> (counter: BlockLocalCounter)
        ensures
            counter.descriptor.is_synthetic(
                id@,
                CapabilitySet::spec_of(Capability::Transactions),
                ReductionMode::BlockLocal,
            ),
    {
        BlockLocalCounter {
            descriptor: synthetic_descriptor(
                id,
                CapabilitySet::of(Capability::Transactions),
                ReductionMode::BlockLocal,
            ),
        }
    }

    pub fn with_publication(self, publication: PublicationPolicy) -> (counter: BlockLocalCounter)
        ensures
            counter.descriptor == (ProcessorDescriptor { publication, ..self.descriptor }),
    {
        BlockLocalCounter {
            descriptor: ProcessorDescriptor { publication, ..self.descriptor },
        }
    }

    pub fn with_lifecycle(self, lifecycle: LifecyclePolicies) -> (counter: BlockLocalCounter)
        ensures
            counter.descriptor == (ProcessorDescriptor { lifecycle, ..self.descriptor }),
    {
        BlockLocalCounter { descriptor: ProcessorDescriptor { lifecycle, ..self.descriptor } }
    }

    pub fn with_split_delivery(self) -> (counter: BlockLocalCounter)
        ensures
            counter.descriptor == (ProcessorDescriptor {
                delivery_ordering: DeliveryOrdering::BlockVersionedIdempotent,
                ..self.descriptor
            }),
    {
        BlockLocalCounter {
            descriptor: ProcessorDescriptor {
                delivery_ordering: DeliveryOrdering::BlockVersionedIdempotent,
                ..self.descriptor
            },
        }
    }

    pub fn with_output_none(self) -> (counter: BlockLocalCounter)
        ensures
            counter.descriptor == (ProcessorDescriptor {
                lifecycle: LifecyclePolicies {
                    keeps_output: false,
                    ..self.descriptor.lifecycle
                },
                ..self.descriptor
            }),
    {
        let mut descriptor = self.descriptor;
        descriptor.lifecycle.keeps_output = false;
        BlockLocalCounter { descriptor }
    }

    pub fn with_delivery_none(self) -> (counter: BlockLocalCounter)
        ensures
            !counter.descriptor.lifecycle.delivers,
            counter.descriptor.lifecycle.consumers@.len() == 0,
            counter.descriptor == (ProcessorDescriptor {
                lifecycle: LifecyclePolicies {
                    delivers: false,
                    consumers: counter.descriptor.lifecycle.consumers,
                    ..self.descriptor.lifecycle
                },
                ..self.descriptor
            }),
    {
        let mut descriptor = self.descriptor;
        descriptor.lifecycle.delivers = false;
        descriptor.lifecycle.consumers = Vec::new();
        BlockLocalCounter { descriptor }
    }

    /// Overrides the live delivery hard limit for resource-boundary tests.
    pub fn with_delivery_max_bytes(self, maximum_bytes: u64) -> (counter: BlockLocalCounter)
        ensures
            counter.descriptor == (ProcessorDescriptor {
                lifecycle: LifecyclePolicies {
                    delivery_max_bytes: maximum_bytes,
                    ..self.descriptor.lifecycle
                },
                ..self.descriptor
            }),
    {
        let mut descriptor = self.descriptor;
        descriptor.lifecycle.delivery_max_bytes = maximum_bytes;
        BlockLocalCounter { descriptor }
    }

    pub fn descriptor(&self) -> (descriptor: &ProcessorDescriptor)
        ensures
            *descriptor == self.descriptor,
    {
        &self.descriptor
    }

    /// Counts the transactions of a block.
    pub fn map(&self, frame: &BlockFrame) -> (outcome: Result<ProcessorDelta, ProcessorError>)
        ensures
            if !suffices(self.descriptor, *frame) {
                outcome == Err::<ProcessorDelta, ProcessorError>(
                    ProcessorError::Input("frame lacks required complete material"),
                )
            } else {
                match frame.transactions {
                    Material::Complete(transactions) => {
                        &&& outcome is Ok
                        &&& outcome->Ok_0.chain_id == frame.chain_id
                        &&& outcome->Ok_0.block == frame.block
                        &&& outcome->Ok_0.payload@ == be64(transactions@.len() as u64)
                        &&& outcome->Ok_0.valid
                    },
                    _ => outcome == Err::<ProcessorDelta, ProcessorError>(
                        ProcessorError::Input("complete transactions required"),
                    ),
                }
            },
    {
        validate_requirements(&self.descriptor, frame)?;
        match &frame.transactions {
            Material::Complete(transactions) => {
                let mut payload: Vec<u8> = Vec::new();
                push_u64(&mut payload, transactions.len() as u64);
                assert(payload@ =~= be64(transactions@.len() as u64));
                Ok(
                    ProcessorDelta {
                        chain_id: frame.chain_id,
                        block: frame.block,
                        payload,
                        valid: true,
                    },
                )
            },
            _ => Err(ProcessorError::Input("complete transactions required")),
        }
    }

    /// Stores a block's count under its ordered key, and emits it.
    pub fn reduce(
        &self,
        transaction: &mut MemoryReducer,
        cursor: &ProcessorCursor,
        delta: &ProcessorDelta,
    ) -> (outcome: Result<DomainChange, ProcessorError>)
        requires
            old(transaction).wf(),
        ensures
            final(transaction).wf(),
            match cursor_problem(self.descriptor, *cursor, *delta) {
                Some(error) => {
                    &&& outcome == Err::<DomainChange, ProcessorError>(error)
                    &&& final(transaction)@ == old(transaction)@
                },
                None => if delta.payload@.len() != 8 {
                    &&& outcome == Err::<DomainChange, ProcessorError>(
                        ProcessorError::DeltaPayload("counter must be 8 bytes"),
                    )
                    &&& final(transaction)@ == old(transaction)@
                } else {
                    &&& outcome is Ok
                    &&& final(transaction)@ == counter_reduced(old(transaction)@, *delta)
                    &&& outcome->Ok_0@ == final(transaction)@.emitted.last()
                },
            },
    {
        validate_delta_cursor(&self.descriptor, cursor, delta)?;
        if delta.payload.len() != 8 {
            return Err(ProcessorError::DeltaPayload("counter must be 8 bytes"));
        }
        let key: Vec<u8> = encode_ordered(delta.chain_id, &delta.block);
        transaction.put(
            "counter.blocks",
            copy_bytes(key.as_slice()),
            copy_bytes(delta.payload.as_slice()),
        );
        let change = DomainChange {
            kind: "synthetic.counter".to_owned(),
            key,
            operation: ChangeOperation::Upsert,
            payload: copy_bytes(delta.payload.as_slice()),
        };
        transaction.emit(change.clone());
        Ok(change)
    }
}

/// Chains the hashes of consecutive blocks into one digest.
#[derive(Debug)]
pub struct OrderedLedgerProcessor {
    pub descriptor: ProcessorDescriptor,
}

impl Default for OrderedLedgerProcessor {
    fn default() -> (ledger: OrderedLedgerProcessor)
        ensures
            ledger.descriptor.is_synthetic(
                "synthetic-ledger"@,
                CapabilitySet::spec_of(Capability::Header),
                ReductionMode::OrderedState,
            ),
    {
        OrderedLedgerProcessor::named("synthetic-ledger")
    }
}

/// The digest before any block: thirty-two zeros.
pub open spec fn ledger_start() -> Seq<u8> {
    Seq::new(32, |i: int| 0u8)
}

/// The digest that the ledger holds.
pub open spec fn ledger_digest(state: ReducerView) -> Seq<u8> {
    match value_of(state.states, "ledger"@, encode_utf8("digest"@)) {
        Some(digest) => digest,
        None => ledger_start(),
    }
}

/// The block that the ledger expects, if it has seen one.
pub open spec fn ledger_last(state: ReducerView) -> Option<Seq<u8>> {
    value_of(state.states, "ledger"@, encode_utf8("last-block"@))
}

/// Why the ledger refuses a delta, if it does.
pub open spec fn ledger_problem(state: ReducerView, delta: ProcessorDelta) -> Option<
    ProcessorError,
> {
    let last = ledger_last(state);
    let expected = if from_be64(last->0) == u64::MAX {
        u64::MAX
    } else {
        (from_be64(last->0) + 1) as u64
    };
    if delta.payload@.len() != 32 {
        Some(ProcessorError::DeltaPayload("ledger hash must be 32 bytes"))
    } else if last is Some && last->0.len() != 8 {
        Some(ProcessorError::State("last block is corrupt"))
    } else if last is Some && delta.block.number.0 != expected {
        Some(ProcessorError::Invariant { expected, received: delta.block.number.0 })
    } else if ledger_digest(state).len() != 32 {
        Some(ProcessorError::State("ledger digest has an invalid length"))
    } else {
        None
    }
}

/// What the ledger's reduction leaves behind.
pub open spec fn ledger_reduced(before: ReducerView, delta: ProcessorDelta) -> ReducerView {
    let digest = blake3_digest(ledger_digest(before) + delta.payload@)@;
    let key = encode_utf8("digest"@);
    ReducerView {
        states: with_value(
            with_value(before.states, "ledger"@, key, digest),
            "ledger"@,
            encode_utf8("last-block"@),
            be64(delta.block.number.0),
        ),
        entities: with_value(before.entities, "ledger"@, key, digest),
        emitted: before.emitted.push(
            ChangeView {
                kind: "synthetic.ledger"@,
                key,
                operation: ChangeOperation::Upsert,
                payload: digest,
            },
        ),
        ..before
    }
}

impl OrderedLedgerProcessor {
    /// Constructs an independent ordered ledger with the same material shape.
    pub fn named(id: &str) -> (ledger: OrderedLedgerProcessor)
        ensures
            ledger.descriptor.is_synthetic(
                id@,
                CapabilitySet::spec_of(Capability::Header),
                ReductionMode::OrderedState,
            ),
    {
        OrderedLedgerProcessor {
            descriptor: synthetic_descriptor(
                id,
                CapabilitySet::of(Capability::Header),
                ReductionMode::OrderedState,
            ),
        }
    }

    /// Disables delivery while retaining the queryable ordered
    /// materialization.
    pub fn with_delivery_none(self) -> (ledger: OrderedLedgerProcessor)
        ensures
            !ledger.descriptor.lifecycle.delivers,
            ledger.descriptor.lifecycle.consumers@.len() == 0,
            ledger.descriptor == (ProcessorDescriptor {
                lifecycle: LifecyclePolicies {
                    delivers: false,
                    consumers: ledger.descriptor.lifecycle.consumers,
                    ..self.descriptor.lifecycle
                },
                ..self.descriptor
            }),
    {
        let mut descriptor = self.descriptor;
        descriptor.lifecycle.delivers = false;
        descriptor.lifecycle.consumers = Vec::new();
        OrderedLedgerProcessor { descriptor }
    }

    pub fn descriptor(&self) -> (descriptor: &ProcessorDescriptor)
        ensures
            *descriptor == self.descriptor,
    {
        &self.descriptor
    }

    /// Takes the hash of a block.
    pub fn map(&self, frame: &BlockFrame) -> (outcome: Result<ProcessorDelta, ProcessorError>)
        ensures
            if suffices(self.descriptor, *frame) {
                &&& outcome is Ok
                &&& outcome->Ok_0.chain_id == frame.chain_id
                &&& outcome->Ok_0.block == frame.block
                &&& outcome->Ok_0.payload@ == frame.block.hash.0@
                &&& outcome->Ok_0.valid
            } else {
                outcome == Err::<ProcessorDelta, ProcessorError>(
                    ProcessorError::Input("frame lacks required complete material"),
                )
            },
    {
        validate_requirements(&self.descriptor, frame)?;
        Ok(
            ProcessorDelta {
                chain_id: frame.chain_id,
                block: frame.block,
                payload: copy_bytes(&frame.block.hash.0),
                valid: true,
            },
        )
    }

    /// Chains a block's hash to the digest so far. Refuses any block but the
    /// one behind the last.
    pub fn reduce(
        &self,
        transaction: &mut MemoryReducer,
        cursor: &ProcessorCursor,
        delta: &ProcessorDelta,
    ) -> (outcome: Result<DomainChange, ProcessorError>)
        requires
            old(transaction).wf(),
        ensures
            final(transaction).wf(),
            match cursor_problem(self.descriptor, *cursor, *delta) {
                Some(error) => {
                    &&& outcome == Err::<DomainChange, ProcessorError>(error)
                    &&& final(transaction)@ == old(transaction)@
                },
                None => match ledger_problem(old(transaction)@, *delta) {
                    Some(error) => {
                        &&& outcome == Err::<DomainChange, ProcessorError>(error)
                        &&& final(transaction)@ == old(transaction)@
                    },
                    None => {
                        &&& outcome is Ok
                        &&& final(transaction)@ == ledger_reduced(old(transaction)@, *delta)
                        &&& outcome->Ok_0@ == final(transaction)@.emitted.last()
                    },
                },
            },
    {
        validate_delta_cursor(&self.descriptor, cursor, delta)?;
        if delta.payload.len() != 32 {
            return Err(ProcessorError::DeltaPayload("ledger hash must be 32 bytes"));
        }
        if let Some(last) = transaction.state_get("ledger", "last-block".as_bytes()) {
            if last.len() != 8 {
                return Err(ProcessorError::State("last block is corrupt"));
            }
            let expected: u64 = u64_at(last.as_slice(), 0).saturating_add(1);
            assert(last@.subrange(0, 8) =~= last@);
            if delta.block.number.0 != expected {
                return Err(
                    ProcessorError::Invariant { expected, received: delta.block.number.0 },
                );
            }
        }
        let mut input: Vec<u8> = match transaction.state_get("ledger", "digest".as_bytes()) {
            Some(previous) => previous,
            None => copy_bytes(&fill32(0)),
        };
        assert(input@ =~= ledger_digest(transaction@));
        if input.len() != 32 {
            return Err(ProcessorError::State("ledger digest has an invalid length"));
        }
        push_bytes(&mut input, delta.payload.as_slice());
        let digest: [u8; 32] = blake3_hash(input.as_slice());
        transaction.state_put("ledger", copy_bytes("digest".as_bytes()), copy_bytes(&digest));
        let mut number: Vec<u8> = Vec::new();
        push_u64(&mut number, delta.block.number.0);
        assert(number@ =~= be64(delta.block.number.0));
        transaction.state_put("ledger", copy_bytes("last-block".as_bytes()), number);
        transaction.put("ledger", copy_bytes("digest".as_bytes()), copy_bytes(&digest));
        let change = DomainChange {
            kind: "synthetic.ledger".to_owned(),
            key: copy_bytes("digest".as_bytes()),
            operation: ChangeOperation::Upsert,
            payload: copy_bytes(&digest),
        };
        transaction.emit(change.clone());
        Ok(change)
    }
}

/// The ledger takes consecutive blocks only: after one block, of the deltas
/// that carry a hash it accepts those of the next block and no other.
pub proof fn law_ledger_takes_consecutive_blocks(
    before: ReducerView,
    delta: ProcessorDelta,
    next: ProcessorDelta,
)
    requires
        keys_ordered(before.states),
        ledger_problem(before, delta) is None,
        delta.block.number.0 < u64::MAX,
        next.payload@.len() == 32,
    ensures
        ledger_problem(ledger_reduced(before, delta), next) is None <==> next.block.number.0
            == delta.block.number.0 + 1,
{
    let digest = blake3_digest(ledger_digest(before) + delta.payload@)@;
    let digest_key = encode_utf8("digest"@);
    let last_key = encode_utf8("last-block"@);
    assert(digest_key != last_key) by {
        reveal_strlit("digest");
        reveal_strlit("last-block");
        vstd::utf8::encode_utf8_decode_utf8("digest"@);
        vstd::utf8::encode_utf8_decode_utf8("last-block"@);
        assert("digest"@.len() != "last-block"@.len());
    }
    let middle = with_value(before.states, "ledger"@, digest_key, digest);
    let number = be64(delta.block.number.0);
    lemma_with_value_ordered(before.states, "ledger"@, digest_key, digest);
    law_put_is_got(before.states, "ledger"@, digest_key, digest, "ledger"@, digest_key);
    law_put_is_got(middle, "ledger"@, last_key, number, "ledger"@, digest_key);
    lemma_be64_round_trip(delta.block.number.0);
}

} // verus!
