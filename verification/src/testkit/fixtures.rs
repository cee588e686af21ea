//! Small deterministic normalized fixtures.

use crate::frame::{BlockFrame, Material, MissingReason};
use crate::frame_view::{FrameView, MaterialView};
use crate::primitives::{
    BlockHash, BlockNumber, BlockRange, BlockRef, Capability, CapabilitySet, ChainId, Finality,
    TrustModel,
};
use crate::request::{FinalityModel, Partitioning, SourceBudget, SourceDescriptor, SourceKind};
use crate::testkit::corpus::{fill32, filled32};
use vstd::prelude::*;

verus! {

/// The byte that a fixture's hash repeats.
pub open spec fn fixture_byte(number: u64) -> u8 {
    if number > 255 {
        255
    } else {
        number as u8
    }
}

/// A fixture block without any content.
pub open spec fn fixture_of(number: u64, parent_hash: BlockHash) -> FrameView {
    FrameView {
        chain_id: ChainId(1),
        block: BlockRef {
            number: BlockNumber(number),
            hash: BlockHash(filled32(fixture_byte(number))),
            parent_hash,
            timestamp: (1_700_000_000 + number) as u64,
        },
        finality: Finality::Finalized,
        header: MaterialView::Missing(MissingReason::NotRequested),
        transactions: MaterialView::Complete(Seq::empty()),
        receipts: MaterialView::Complete(Seq::empty()),
        logs: MaterialView::Complete(Seq::empty()),
        withdrawals: MaterialView::Missing(MissingReason::Unsupported),
        blob_sidecars: MaterialView::Missing(MissingReason::NotRequested),
        traces: MaterialView::Missing(MissingReason::Unsupported),
        state_diffs: MaterialView::Missing(MissingReason::Unsupported),
        provenance: Seq::empty(),
    }
}

/// A fixture block without any content, whose hash repeats its number.
pub fn fixture_frame(number: u64, parent_hash: BlockHash) -> (frame: BlockFrame)
    requires
        1_700_000_000 + number <= u64::MAX,
    ensures
        frame@ == fixture_of(number, parent_hash),
{
    let byte: u8 = if number > 255 {
        255
    } else {
        number as u8
    };
    let frame = BlockFrame {
        chain_id: ChainId(1),
        block: BlockRef {
            number: BlockNumber(number),
            hash: BlockHash(fill32(byte)),
            parent_hash,
            timestamp: 1_700_000_000 + number,
        },
        finality: Finality::Finalized,
        header: Material::Missing(MissingReason::NotRequested),
        transactions: Material::Complete(Vec::new()),
        receipts: Material::Complete(Vec::new()),
        logs: Material::Complete(Vec::new()),
        withdrawals: Material::Missing(MissingReason::Unsupported),
        blob_sidecars: Material::Missing(MissingReason::NotRequested),
        traces: Material::Missing(MissingReason::Unsupported),
        state_diffs: Material::Missing(MissingReason::Unsupported),
        provenance: Vec::new(),
    };
    proof {
        let expected = fixture_of(number, parent_hash);
        assert(frame@.transactions->Complete_0 =~= expected.transactions->Complete_0);
        assert(frame@.receipts->Complete_0 =~= expected.receipts->Complete_0);
        assert(frame@.logs->Complete_0 =~= expected.logs->Complete_0);
        assert(frame@.provenance =~= expected.provenance);
    }
    frame
}

/// Everything that a fixture source offers.
pub open spec fn fixture_capabilities() -> CapabilitySet {
    CapabilitySet::spec_none().spec_with(Capability::Transactions).spec_with(
        Capability::Receipts,
    ).spec_with(Capability::Logs)
}

/// Builds a protocol-verified synthetic descriptor.
pub fn fixture_source_descriptor(id: &str, range: BlockRange) -> (descriptor: SourceDescriptor)
    ensures
        descriptor.id@ == id@,
        descriptor.kind == SourceKind::Synthetic,
        descriptor.chain_id == ChainId(1),
        descriptor.range == Some(range),
        descriptor.capabilities == fixture_capabilities(),
        descriptor.complete_capabilities == fixture_capabilities(),
        descriptor.trust == TrustModel::ProtocolVerified,
        descriptor.finality == FinalityModel::Finalized,
        descriptor.partitioning == Partitioning::FixedBlockSpan(100),
        descriptor.expected_lag_millis == 0,
        descriptor.schema_version@ == "fixture-v1"@,
        descriptor.priority == 0,
{
    let capabilities = CapabilitySet::none().with(Capability::Transactions).with(
        Capability::Receipts,
    ).with(Capability::Logs);
    SourceDescriptor {
        id: id.to_owned(),
        kind: SourceKind::Synthetic,
        chain_id: ChainId(1),
        range: Some(range),
        capabilities,
        complete_capabilities: capabilities,
        trust: TrustModel::ProtocolVerified,
        finality: FinalityModel::Finalized,
        partitioning: Partitioning::FixedBlockSpan(100),
        expected_lag_millis: 0,
        schema_version: "fixture-v1".to_owned(),
        priority: 0,
    }
}

/// A budget that any fixture fits.
pub fn default_source_budget() -> (budget: SourceBudget)
    ensures
        budget == (SourceBudget {
            max_input_bytes: 1_048_576,
            max_frame_bytes: 524_288,
            max_frames: 1_000,
            max_buffered_frames: 2,
            max_in_flight_requests: 1,
            temporary_disk_bytes: 0,
        }),
        budget.wf(),
{
    SourceBudget {
        max_input_bytes: 1024 * 1024,
        max_frame_bytes: 512 * 1024,
        max_frames: 1_000,
        max_buffered_frames: 2,
        max_in_flight_requests: 1,
        temporary_disk_bytes: 0,
    }
}

} // verus!
