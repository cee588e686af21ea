//! What a caller asks of a source: material, projection, filters and budget.

use crate::history::error::HistoryStoreError;
use crate::history::layout::{SegmentError, SegmentId};
use crate::primitives::{
    Address, BlockHash, BlockRange, CapabilitySet, ChainId, Finality, TransactionHash, TrustModel,
};
use crate::text::clone_texts;
use crate::xatu::error::DataProblem;
use vstd::prelude::*;

verus! {

/// An optional field of a log.
#[derive(Clone, Copy, Debug, PartialEq, Eq, Structural)]
pub enum LogField {
    TransactionHash,
}

/// Set of optional log fields, one bit each.
#[derive(Clone, Copy, Debug, PartialEq, Eq, Structural)]
pub struct LogFieldSet {
    pub bits: u8,
}

impl LogFieldSet {
    pub open spec fn spec_none() -> LogFieldSet {
        LogFieldSet { bits: 0 }
    }

    pub open spec fn spec_all() -> LogFieldSet {
        LogFieldSet { bits: 1 }
    }

    pub open spec fn has(self, field: LogField) -> bool {
        match field {
            LogField::TransactionHash => self.bits & 1 != 0,
        }
    }

    pub open spec fn has_all(self, required: LogFieldSet) -> bool {
        self.bits & required.bits == required.bits
    }

    pub fn none() -> (set: LogFieldSet)
        ensures
            set == LogFieldSet::spec_none(),
    {
        LogFieldSet { bits: 0 }
    }

    pub fn all() -> (set: LogFieldSet)
        ensures
            set == LogFieldSet::spec_all(),
    {
        LogFieldSet { bits: 1 }
    }

    pub fn contains(self, field: LogField) -> (inside: bool)
        ensures
            inside == self.has(field),
    {
        match field {
            LogField::TransactionHash => self.bits & 1 != 0,
        }
    }

    pub fn contains_all(self, required: LogFieldSet) -> (inside: bool)
        ensures
            inside == self.has_all(required),
    {
        self.bits & required.bits == required.bits
    }
}

/// Named fields to acquire of each kind of material. Empty means all.
#[derive(Debug)]
pub struct FieldProjection {
    pub header_fields: Vec<String>,
    pub transaction_fields: Vec<String>,
    pub receipt_fields: Vec<String>,
    pub log_fields: Vec<String>,
}

impl FieldProjection {
    pub open spec fn spec_empty(self) -> bool {
        self.header_fields@.len() == 0 && self.transaction_fields@.len() == 0
            && self.receipt_fields@.len() == 0 && self.log_fields@.len() == 0
    }

    /// Two projections name the same fields in the same order.
    pub open spec fn alike(self, other: FieldProjection) -> bool {
        &&& self.header_fields@ == other.header_fields@
        &&& self.transaction_fields@ == other.transaction_fields@
        &&& self.receipt_fields@ == other.receipt_fields@
        &&& self.log_fields@ == other.log_fields@
    }

    pub fn is_empty(&self) -> (empty: bool)
        ensures
            empty == self.spec_empty(),
    {
        self.header_fields.len() == 0 && self.transaction_fields.len() == 0
            && self.receipt_fields.len() == 0 && self.log_fields.len() == 0
    }
}

impl Default for FieldProjection {
    fn default() -> (projection: FieldProjection)
        ensures
            projection.spec_empty(),
    {
        FieldProjection {
            header_fields: Vec::new(),
            transaction_fields: Vec::new(),
            receipt_fields: Vec::new(),
            log_fields: Vec::new(),
        }
    }
}

impl Clone for FieldProjection {
    fn clone(&self) -> (copy: FieldProjection)
        ensures
            copy.alike(*self),
    {
        FieldProjection {
            header_fields: clone_texts(&self.header_fields),
            transaction_fields: clone_texts(&self.transaction_fields),
            receipt_fields: clone_texts(&self.receipt_fields),
            log_fields: clone_texts(&self.log_fields),
        }
    }
}

/// One topic position, and the values accepted there.
#[derive(Debug)]
pub struct TopicFilter {
    pub position: u8,
    pub alternatives: Vec<[u8; 32]>,
}

/// Copies a list of copyable values.
pub fn clone_list<T: Copy>(values: &Vec<T>) -> (copy: Vec<T>)
    ensures
        copy@ == values@,
{
    let mut copy: Vec<T> = Vec::new();
    let mut index: usize = 0;
    while index < values.len()
        invariant
            index <= values@.len(),
            copy@ == values@.take(index as int),
        decreases values@.len() - index,
    {
        copy.push(values[index]);
        assert(copy@ =~= values@.take(index + 1));
        index += 1;
    }
    assert(values@.take(index as int) =~= values@);
    copy
}

/// Two topic filters accept the same values at the same position.
pub open spec fn topic_alike(left: TopicFilter, right: TopicFilter) -> bool {
    left.position == right.position && left.alternatives@ == right.alternatives@
}

/// Two lists of topic filters are alike, one by one.
pub open spec fn topics_alike(left: Seq<TopicFilter>, right: Seq<TopicFilter>) -> bool {
    left.len() == right.len() && forall|i: int|
        0 <= i < left.len() ==> topic_alike(#[trigger] left[i], right[i])
}

fn clone_topics(values: &Vec<TopicFilter>) -> (copy: Vec<TopicFilter>)
    ensures
        topics_alike(copy@, values@),
{
    let mut copy: Vec<TopicFilter> = Vec::new();
    let mut index: usize = 0;
    while index < values.len()
        invariant
            index <= values@.len(),
            copy@.len() == index,
            forall|i: int| 0 <= i < index ==> topic_alike(#[trigger] copy@[i], values@[i]),
        decreases values@.len() - index,
    {
        copy.push(
            TopicFilter {
                position: values[index].position,
                alternatives: clone_list(&values[index].alternatives),
            },
        );
        index += 1;
    }
    copy
}

/// The part of a chain that a filter selects. Empty lists select everything.
#[derive(Debug)]
pub struct FilterScope {
    pub block_range: Option<BlockRange>,
    pub addresses: Vec<Address>,
    pub topics: Vec<TopicFilter>,
    pub transaction_types: Vec<u8>,
    pub transaction_hashes: Vec<TransactionHash>,
    pub senders: Vec<Address>,
    pub recipients: Vec<Address>,
}

impl FilterScope {
    pub open spec fn spec_empty(self) -> bool {
        &&& self.block_range is None
        &&& self.addresses@.len() == 0
        &&& self.topics@.len() == 0
        &&& self.transaction_types@.len() == 0
        &&& self.transaction_hashes@.len() == 0
        &&& self.senders@.len() == 0
        &&& self.recipients@.len() == 0
    }

    /// Two scopes select by the same lists.
    pub open spec fn alike(self, other: FilterScope) -> bool {
        &&& self.block_range == other.block_range
        &&& self.addresses@ == other.addresses@
        &&& topics_alike(self.topics@, other.topics@)
        &&& self.transaction_types@ == other.transaction_types@
        &&& self.transaction_hashes@ == other.transaction_hashes@
        &&& self.senders@ == other.senders@
        &&& self.recipients@ == other.recipients@
    }

    pub fn is_empty(&self) -> (empty: bool)
        ensures
            empty == self.spec_empty(),
    {
        self.block_range.is_none() && self.addresses.len() == 0 && self.topics.len() == 0
            && self.transaction_types.len() == 0 && self.transaction_hashes.len() == 0
            && self.senders.len() == 0 && self.recipients.len() == 0
    }
}

impl Default for FilterScope {
    fn default() -> (scope: FilterScope)
        ensures
            scope.spec_empty(),
    {
        FilterScope {
            block_range: None,
            addresses: Vec::new(),
            topics: Vec::new(),
            transaction_types: Vec::new(),
            transaction_hashes: Vec::new(),
            senders: Vec::new(),
            recipients: Vec::new(),
        }
    }
}

impl Clone for FilterScope {
    fn clone(&self) -> (copy: FilterScope)
        ensures
            copy.alike(*self),
    {
        FilterScope {
            block_range: self.block_range,
            addresses: clone_list(&self.addresses),
            topics: clone_topics(&self.topics),
            transaction_types: clone_list(&self.transaction_types),
            transaction_hashes: clone_list(&self.transaction_hashes),
            senders: clone_list(&self.senders),
            recipients: clone_list(&self.recipients),
        }
    }
}

/// The predicates of a request.
#[derive(Debug)]
pub struct FilterSet {
    pub scope: FilterScope,
    pub senders: Vec<Address>,
    pub recipients: Vec<Address>,
}

impl FilterSet {
    pub open spec fn spec_empty(self) -> bool {
        self.scope.spec_empty() && self.senders@.len() == 0 && self.recipients@.len() == 0
    }

    /// Two filter sets hold the same predicates.
    pub open spec fn alike(self, other: FilterSet) -> bool {
        &&& self.scope.alike(other.scope)
        &&& self.senders@ == other.senders@
        &&& self.recipients@ == other.recipients@
    }

    pub fn is_empty(&self) -> (empty: bool)
        ensures
            empty == self.spec_empty(),
    {
        self.scope.is_empty() && self.senders.len() == 0 && self.recipients.len() == 0
    }
}

impl Default for FilterSet {
    fn default() -> (filters: FilterSet)
        ensures
            filters.spec_empty(),
    {
        FilterSet { scope: FilterScope::default(), senders: Vec::new(), recipients: Vec::new() }
    }
}

impl Clone for FilterSet {
    fn clone(&self) -> (copy: FilterSet)
        ensures
            copy.alike(*self),
    {
        FilterSet {
            scope: self.scope.clone(),
            senders: clone_list(&self.senders),
            recipients: clone_list(&self.recipients),
        }
    }
}

/// The guarantee that a request asks for.
#[derive(Clone, Copy, Debug, PartialEq, Eq, Structural)]
pub enum VerificationPolicy {
    CompleteCryptographic,
    TrustedDataset,
    BestEffort,
}

/// A request for material over a range.
#[derive(Debug)]
pub struct DataRequest {
    pub chain_id: ChainId,
    pub range: BlockRange,
    pub required: CapabilitySet,
    pub allow_filtered: bool,
    pub projection: FieldProjection,
    pub log_fields: LogFieldSet,
    pub filters: FilterSet,
    pub minimum_finality: Finality,
    pub verification_policy: VerificationPolicy,
}

impl DataRequest {
    /// Two requests agree in every field.
    pub open spec fn alike(self, other: DataRequest) -> bool {
        &&& self.chain_id == other.chain_id
        &&& self.range == other.range
        &&& self.required == other.required
        &&& self.allow_filtered == other.allow_filtered
        &&& self.projection.alike(other.projection)
        &&& self.log_fields == other.log_fields
        &&& self.filters.alike(other.filters)
        &&& self.minimum_finality == other.minimum_finality
        &&& self.verification_policy == other.verification_policy
    }
}

impl Clone for DataRequest {
    fn clone(&self) -> (copy: DataRequest)
        ensures
            copy.alike(*self),
    {
        DataRequest {
            chain_id: self.chain_id,
            range: self.range,
            required: self.required,
            allow_filtered: self.allow_filtered,
            projection: self.projection.clone(),
            log_fields: self.log_fields,
            filters: self.filters.clone(),
            minimum_finality: self.minimum_finality,
            verification_policy: self.verification_policy,
        }
    }
}

/// What kind of source serves.
#[derive(Clone, Copy, Debug, PartialEq, Eq, Structural)]
pub enum SourceKind {
    RetainedHistory,
    PublicDataset,
    Synthetic,
}

/// When a source calls a block final.
#[derive(Clone, Copy, Debug, PartialEq, Eq, Structural)]
pub enum FinalityModel {
    Finalized,
    Optimistic,
}

/// How a source divides its blocks.
#[derive(Debug)]
pub enum Partitioning {
    Unpartitioned,
    FixedBlockSpan(u64),
    SourceDefined(String),
}

/// What a source offers.
#[derive(Debug)]
pub struct SourceDescriptor {
    pub id: String,
    pub kind: SourceKind,
    pub chain_id: ChainId,
    pub range: Option<BlockRange>,
    pub capabilities: CapabilitySet,
    pub complete_capabilities: CapabilitySet,
    pub trust: TrustModel,
    pub finality: FinalityModel,
    pub partitioning: Partitioning,
    pub expected_lag_millis: u64,
    pub schema_version: String,
    pub priority: u16,
}

/// One part of a plan, which is opened and streamed on its own.
#[derive(Debug)]
pub struct SourceChunk {
    pub source_id: String,
    pub range: BlockRange,
    pub partition: Vec<u8>,
    pub schema_version: String,
    pub expected_parent: Option<BlockHash>,
    pub estimated_bytes: Option<u64>,
}

/// What a physical operation reads.
#[derive(Clone, Copy, Debug, PartialEq, Eq, Structural)]
pub enum PhysicalReader {
    Block,
    Transaction,
    Log,
    Receipt,
}

/// One physical operation of a plan.
#[derive(Debug)]
pub struct PhysicalPlanOperation {
    pub reader: PhysicalReader,
    pub table: String,
    pub columns: Vec<String>,
    pub predicates: Vec<String>,
    pub estimated_bytes: Option<u64>,
    pub trust: TrustModel,
    pub completeness: &'static str,
    pub derived: bool,
}

/// How a source will serve a request.
#[derive(Debug)]
pub struct SourcePlan {
    pub source_id: String,
    pub request: DataRequest,
    pub chunks: Vec<SourceChunk>,
    pub estimated_bytes: Option<u64>,
    pub estimated_lag_millis: u64,
    pub supplied: CapabilitySet,
    pub complete: CapabilitySet,
    pub trust: TrustModel,
    pub schema_version: String,
    pub physical_plan: Vec<PhysicalPlanOperation>,
}

/// Ranges that follow one another from the first to the last height of
/// `requested`, without a gap and without an overlap.
pub open spec fn exact_cover(requested: BlockRange, ranges: Seq<BlockRange>) -> bool {
    &&& ranges.len() > 0
    &&& ranges[0].start == requested.start
    &&& ranges.last().end == requested.end
    &&& forall|i: int| 0 <= i < ranges.len() ==> (#[trigger] ranges[i]).wf()
    &&& forall|i: int|
        0 < i < ranges.len() ==> (#[trigger] ranges[i]).start.0 == ranges[i - 1].end.0 + 1
}

/// The ranges of chunks.
pub open spec fn chunk_ranges(chunks: Seq<SourceChunk>) -> Seq<BlockRange> {
    chunks.map_values(|chunk: SourceChunk| chunk.range)
}

impl SourcePlan {
    /// Refuses a plan whose chunks do not cover the request exactly.
    pub fn validate(&self) -> (outcome: Result<(), SourceError>)
        ensures
            outcome == (if exact_cover(self.request.range, chunk_ranges(self.chunks@)) {
                Ok::<(), SourceError>(())
            } else {
                Err(SourceError::InvalidPlan("source chunks do not cover the request exactly"))
            }),
    {
        let ghost ranges = chunk_ranges(self.chunks@);
        let count: usize = self.chunks.len();
        if count == 0 || self.chunks[0].range.start != self.request.range.start
            || self.chunks[count - 1].range.end != self.request.range.end {
            proof {
                if count > 0 {
                    assert(ranges[0] == self.chunks@[0].range);
                    assert(ranges[count - 1] == self.chunks@[count - 1].range);
                }
            }
            return Err(
                SourceError::InvalidPlan("source chunks do not cover the request exactly"),
            );
        }
        let mut index: usize = 0;
        while index < count
            invariant
                index <= count,
                count == self.chunks@.len(),
                ranges == chunk_ranges(self.chunks@),
                forall|i: int| 0 <= i < index ==> (#[trigger] ranges[i]).wf(),
                forall|i: int|
                    0 < i < index ==> (#[trigger] ranges[i]).start.0 == ranges[i - 1].end.0 + 1,
            decreases count - index,
        {
            let range: BlockRange = self.chunks[index].range;
            proof {
                assert(ranges[index as int] == range);
            }
            let mut follows = range.start.0 <= range.end.0;
            if index > 0 {
                let last: BlockRange = self.chunks[index - 1].range;
                proof {
                    assert(ranges[index - 1] == last);
                }
                follows = follows && last.end.0 < range.start.0 && range.start.0 - 1 == last.end.0;
            }
            if !follows {
                return Err(
                    SourceError::InvalidPlan("source chunks do not cover the request exactly"),
                );
            }
            index += 1;
        }
        proof {
            assert(ranges[0] == self.chunks@[0].range);
            assert(ranges[count - 1] == self.chunks@[count - 1].range);
        }
        Ok(())
    }
}

/// Hard limits of one acquisition.
#[derive(Clone, Copy, Debug, PartialEq, Eq, Structural)]
pub struct SourceBudget {
    pub max_input_bytes: u64,
    pub max_frame_bytes: u64,
    pub max_frames: u64,
    pub max_buffered_frames: usize,
    pub max_in_flight_requests: usize,
    pub temporary_disk_bytes: u64,
}

impl SourceBudget {
    /// No limit but the one on temporary disk space is zero.
    pub open spec fn wf(self) -> bool {
        &&& self.max_input_bytes != 0
        &&& self.max_frame_bytes != 0
        &&& self.max_frames != 0
        &&& self.max_buffered_frames != 0
        &&& self.max_in_flight_requests != 0
    }

    /// Refuses a zero hard limit.
    pub fn validate(self) -> (outcome: Result<SourceBudget, SourceError>)
        ensures
            match outcome {
                Ok(budget) => self.wf() && budget == self,
                Err(error) => !self.wf() && error == SourceError::InvalidPlan(
                    "source budget limits must be non-zero",
                ),
            },
    {
        if self.max_input_bytes == 0 || self.max_frame_bytes == 0 || self.max_frames == 0
            || self.max_buffered_frames == 0 || self.max_in_flight_requests == 0 {
            return Err(SourceError::InvalidPlan("source budget limits must be non-zero"));
        }
        Ok(self)
    }
}

/// Why a source cannot serve.
#[derive(Debug)]
pub enum SourceError {
    InvalidPlan(&'static str),
    /// A plan's chunk has no identity that can be read, in these words.
    InvalidIdentity(String),
    /// A plan's chunk has an identity of another version.
    UnsupportedIdentityVersion(u8),
    CorruptFrame(&'static str),
    /// A frame is corrupt because its segment is.
    CorruptSegment(SegmentError),
    /// A frame is corrupt because the store that holds it is.
    CorruptStore(HistoryStoreError),
    /// A segment is not available.
    SegmentUnavailable(SegmentId),
    MissingRange(BlockRange),
    MissingMaterial { gaps: Vec<BlockRange>, required: u16, available: u16 },
    BudgetExceeded { resource: &'static str, limit: u64, observed: u64 },
    SchemaDrift { expected: String, observed: String },
    IncompleteRange { range: BlockRange, detail: String },
    /// A frame is corrupt because the rows that it is joined from are.
    CorruptRows(DataProblem),
    /// A frame is corrupt because a column has another type than is read.
    CorruptColumn { column: &'static str, data_type: String },
    /// A frame is corrupt because values that should be binary are not.
    CorruptValues { data_type: String },
    /// A frame cannot be joined because the version of its block is not known.
    UnsupportedBlockVersion(Vec<u8>),
    Disconnected(String),
    Unavailable(String),
    Protocol(String),
    Cancelled,
}

} // verus!
