//! Durable raw-history requests: identity, canonical form and lifecycle.

use crate::digest::{blake3_digest, blake3_hash};
use crate::history::error::{HistoryStoreError, JobProblem};
use crate::history::layout::{Compression, MaterialShapeId, VerificationClass};
use crate::order::{ascending, has_key, sort_dedup, Keyed};
use crate::primitives::{
    Address, BlockNumber, BlockRange, Capability, CapabilitySet, ChainId, TransactionHash,
    TrustModel,
};
use crate::ranges::{all_wf, covers, merge_ranges, separated};
use crate::request::{
    clone_list, DataRequest, FieldProjection, FilterScope, FilterSet, LogFieldSet, TopicFilter,
};
use crate::text::{is_portable, portable, same_text, texts};
use vstd::prelude::*;

verus! {

/// Portable caller-visible raw-history job identifier.
#[derive(Debug)]
pub struct RawHistoryJobId {
    value: String,
}

impl View for RawHistoryJobId {
    type V = Seq<char>;

    closed spec fn view(&self) -> Seq<char> {
        self.value@
    }
}

impl Clone for RawHistoryJobId {
    fn clone(&self) -> (copy: RawHistoryJobId)
        ensures
            copy == *self,
    {
        RawHistoryJobId { value: self.value.clone() }
    }
}

/// What a job identifier may be: 1 to 96 letters, digits, `-`, `_` or `.`.
pub open spec fn is_job_id(text: Seq<char>) -> bool {
    is_portable(text, 96, true, false)
}

impl RawHistoryJobId {
    /// Accepts one portable identifier, and refuses empty, overlong or
    /// path-like ones.
    pub fn new(value: String) -> (id: Result<RawHistoryJobId, HistoryStoreError>)
        ensures
            match id {
                Ok(id) => is_job_id(value@) && id@ == value@,
                Err(error) => !is_job_id(value@) && error == HistoryStoreError::InvalidJob(
                    JobProblem::InvalidId(value),
                ),
            },
    {
        if !portable(value.as_str(), 96, true, false) {
            return Err(HistoryStoreError::InvalidJob(JobProblem::InvalidId(value)));
        }
        Ok(RawHistoryJobId { value })
    }

    pub fn as_str(&self) -> (text: &str)
        ensures
            text@ == self@,
    {
        self.value.as_str()
    }

    /// Whether two identifiers are the same text.
    pub fn same(&self, other: &RawHistoryJobId) -> (same: bool)
        ensures
            same == (self@ == other@),
    {
        same_text(self.value.as_str(), other.value.as_str())
    }
}

/// Whether storage pressure pauses resumable work or fails it terminally.
#[derive(Clone, Copy, Debug, PartialEq, Eq, Structural)]
pub enum StorageLimitAction {
    Pause,
    Fail,
}

/// Raw segment retention independent from processor and output retention.
#[derive(Clone, Copy, Debug, PartialEq, Eq, Structural)]
pub enum RawHistoryRetention {
    Full,
    Window { blocks: u64 },
}

/// Optional locator families.
#[derive(Clone, Copy, Debug, PartialEq, Eq, Structural)]
pub struct RawHistoryIndexPolicy {
    pub block_hash: bool,
    pub transaction_hash: bool,
    pub logs: bool,
}

impl Default for RawHistoryIndexPolicy {
    fn default() -> (policy: RawHistoryIndexPolicy)
        ensures
            policy == (RawHistoryIndexPolicy {
                block_hash: false,
                transaction_hash: false,
                logs: false,
            }),
    {
        RawHistoryIndexPolicy { block_hash: false, transaction_hash: false, logs: false }
    }
}

impl RawHistoryIndexPolicy {
    /// Every required family is there.
    pub open spec fn has_all(self, required: RawHistoryIndexPolicy) -> bool {
        &&& required.block_hash ==> self.block_hash
        &&& required.transaction_hash ==> self.transaction_hash
        &&& required.logs ==> self.logs
    }

    pub fn contains(self, required: RawHistoryIndexPolicy) -> (inside: bool)
        ensures
            inside == self.has_all(required),
    {
        (!required.block_hash || self.block_hash) && (!required.transaction_hash
            || self.transaction_hash) && (!required.logs || self.logs)
    }
}

/// Durable product contract attached to retained raw material.
///
/// Processor reuse makes no claim that full Ethereum block RPC can be
/// reconstructed. The execution-RPC profile carries its chain-specific Merge
/// boundary, so that exact post-Merge support cannot silently extend into
/// blocks whose ommers are not retained.
#[derive(Clone, Copy, Debug, PartialEq, Eq, Structural)]
pub enum RawHistoryProfile {
    ProcessorReuse,
    PostMergeExecutionRpc { merge_block: BlockNumber },
}

impl Default for RawHistoryProfile {
    fn default() -> (profile: RawHistoryProfile)
        ensures
            profile == RawHistoryProfile::ProcessorReuse,
    {
        RawHistoryProfile::ProcessorReuse
    }
}

impl RawHistoryProfile {
    /// Anything serves processor reuse; execution RPC is served by the same
    /// profile with the same Merge block alone.
    pub open spec fn serves(self, required: RawHistoryProfile) -> bool {
        required == RawHistoryProfile::ProcessorReuse || self == required
    }

    pub fn satisfies(self, required: RawHistoryProfile) -> (satisfied: bool)
        ensures
            satisfied == self.serves(required),
    {
        match required {
            RawHistoryProfile::ProcessorReuse => true,
            RawHistoryProfile::PostMergeExecutionRpc { merge_block: required_merge } => {
                match self {
                    RawHistoryProfile::PostMergeExecutionRpc { merge_block } => {
                        merge_block.0 == required_merge.0
                    },
                    RawHistoryProfile::ProcessorReuse => false,
                }
            },
        }
    }
}

/// Immutable segment sizing and compression of one job.
#[derive(Clone, Copy, Debug, PartialEq, Eq, Structural)]
pub struct RawHistorySegmentPolicy {
    pub target_blocks: u64,
    pub maximum_logical_bytes: u64,
    pub maximum_physical_bytes: u64,
    pub compression: Compression,
    pub on_limit: StorageLimitAction,
}

/// Durable projection and predicate semantics of retained raw frames.
///
/// Capabilities remain separate, so that complete supersets can later satisfy
/// a narrower consumer without changing projection and filter identity.
#[derive(Debug)]
pub struct RawHistoryMaterialProfile {
    pub allow_filtered: bool,
    pub projection: FieldProjection,
    pub log_fields: LogFieldSet,
    pub filters: FilterSet,
}

impl Default for RawHistoryMaterialProfile {
    fn default() -> (material: RawHistoryMaterialProfile)
        ensures
            material.is_default(),
    {
        RawHistoryMaterialProfile {
            allow_filtered: false,
            projection: FieldProjection::default(),
            log_fields: LogFieldSet::all(),
            filters: FilterSet::default(),
        }
    }
}

impl Clone for RawHistoryMaterialProfile {
    fn clone(&self) -> (copy: RawHistoryMaterialProfile)
        ensures
            copy.alike(*self),
    {
        RawHistoryMaterialProfile {
            allow_filtered: self.allow_filtered,
            projection: self.projection.clone(),
            log_fields: self.log_fields,
            filters: self.filters.clone(),
        }
    }
}

/// `normal` lists the values of `given` in ascending order, each once.
pub open spec fn normal_list<T: Keyed>(given: Seq<T>, normal: Seq<T>) -> bool {
    &&& ascending(normal)
    &&& forall|key: Seq<u8>| #[trigger] has_key(normal, key) <==> has_key(given, key)
    &&& forall|i: int| 0 <= i < normal.len() ==> given.contains(#[trigger] normal[i])
}

proof fn lemma_normal_list_empty<T: Keyed>(given: Seq<T>, normal: Seq<T>)
    requires
        normal_list(given, normal),
    ensures
        normal.len() == 0 <==> given.len() == 0,
{
    if given.len() > 0 {
        assert(has_key(given, given[0].key()));
        assert(has_key(normal, given[0].key()));
    }
    if normal.len() > 0 {
        assert(given.contains(normal[0]));
    }
}

/// The addresses as plain bytes.
pub open spec fn address_bytes(values: Seq<Address>) -> Seq<[u8; 20]> {
    values.map_values(|value: Address| value.0)
}

/// The hashes as plain bytes.
pub open spec fn hash_bytes(values: Seq<TransactionHash>) -> Seq<[u8; 32]> {
    values.map_values(|value: TransactionHash| value.0)
}

/// The topic filters as plain positions and values.
pub open spec fn topic_parts(values: Seq<TopicFilter>) -> Seq<(u8, Seq<[u8; 32]>)> {
    values.map_values(|value: TopicFilter| (value.position, value.alternatives@))
}

/// The pairs with their lists by value.
pub open spec fn pair_views(values: Seq<(u8, Vec<[u8; 32]>)>) -> Seq<(u8, Seq<[u8; 32]>)> {
    values.map_values(|value: (u8, Vec<[u8; 32]>)| (value.0, value.1@))
}

pub fn plain_addresses(values: &Vec<Address>) -> (plain: Vec<[u8; 20]>)
    ensures
        plain@ == address_bytes(values@),
{
    let mut plain: Vec<[u8; 20]> = Vec::new();
    let mut index: usize = 0;
    while index < values.len()
        invariant
            index <= values@.len(),
            plain@ == address_bytes(values@.take(index as int)),
        decreases values@.len() - index,
    {
        plain.push(values[index].0);
        index += 1;
        assert(plain@ =~= address_bytes(values@.take(index as int)));
    }
    assert(values@.take(index as int) =~= values@);
    plain
}

pub fn plain_hashes(values: &Vec<TransactionHash>) -> (plain: Vec<[u8; 32]>)
    ensures
        plain@ == hash_bytes(values@),
{
    let mut plain: Vec<[u8; 32]> = Vec::new();
    let mut index: usize = 0;
    while index < values.len()
        invariant
            index <= values@.len(),
            plain@ == hash_bytes(values@.take(index as int)),
        decreases values@.len() - index,
    {
        plain.push(values[index].0);
        index += 1;
        assert(plain@ =~= hash_bytes(values@.take(index as int)));
    }
    assert(values@.take(index as int) =~= values@);
    plain
}

pub fn plain_topics(values: &Vec<TopicFilter>) -> (plain: Vec<(u8, Vec<[u8; 32]>)>)
    ensures
        pair_views(plain@) == topic_parts(values@),
{
    let mut plain: Vec<(u8, Vec<[u8; 32]>)> = Vec::new();
    let mut index: usize = 0;
    while index < values.len()
        invariant
            index <= values@.len(),
            plain@.len() == index,
            forall|i: int|
                0 <= i < index ==> (#[trigger] plain@[i]).0 == values@[i].position && plain@[i].1@
                    == values@[i].alternatives@,
        decreases values@.len() - index,
    {
        plain.push((values[index].position, clone_list(&values[index].alternatives)));
        index += 1;
    }
    assert(pair_views(plain@) =~= topic_parts(values@));
    plain
}

/// A material profile in plain parts.
pub struct MaterialParts {
    pub allow_filtered: bool,
    pub fields: (Seq<Seq<char>>, Seq<Seq<char>>, Seq<Seq<char>>, Seq<Seq<char>>),
    pub log_bits: u8,
    pub block_range: Option<(u64, u64)>,
    pub addresses: Seq<[u8; 20]>,
    pub topics: Seq<(u8, Seq<[u8; 32]>)>,
    pub transaction_types: Seq<u8>,
    pub transaction_hashes: Seq<[u8; 32]>,
    pub scope_parties: (Seq<[u8; 20]>, Seq<[u8; 20]>),
    pub parties: (Seq<[u8; 20]>, Seq<[u8; 20]>),
}

/// The parts of a material profile as plain lists.
struct PlainMaterial<'a> {
    allow_filtered: bool,
    projection: &'a FieldProjection,
    log_bits: u8,
    block_range: Option<(u64, u64)>,
    addresses: Vec<[u8; 20]>,
    topics: Vec<(u8, Vec<[u8; 32]>)>,
    transaction_types: &'a Vec<u8>,
    transaction_hashes: Vec<[u8; 32]>,
    scope_parties: (Vec<[u8; 20]>, Vec<[u8; 20]>),
    parties: (Vec<[u8; 20]>, Vec<[u8; 20]>),
}

impl<'a> View for PlainMaterial<'a> {
    type V = MaterialParts;

    closed spec fn view(&self) -> MaterialParts {
        MaterialParts {
            allow_filtered: self.allow_filtered,
            fields: field_texts(*self.projection),
            log_bits: self.log_bits,
            block_range: self.block_range,
            addresses: self.addresses@,
            topics: pair_views(self.topics@),
            transaction_types: self.transaction_types@,
            transaction_hashes: self.transaction_hashes@,
            scope_parties: (self.scope_parties.0@, self.scope_parties.1@),
            parties: (self.parties.0@, self.parties.1@),
        }
    }
}

/// The field lists of a projection, by what they say.
pub open spec fn field_texts(projection: FieldProjection) -> (
    Seq<Seq<char>>,
    Seq<Seq<char>>,
    Seq<Seq<char>>,
    Seq<Seq<char>>,
) {
    (
        texts(projection.header_fields@),
        texts(projection.transaction_fields@),
        texts(projection.receipt_fields@),
        texts(projection.log_fields@),
    )
}

/// The bytes that postcard writes for the parts of a material profile.
pub uninterp spec fn material_encoded(parts: MaterialParts) -> Seq<u8>;

/// Calls `postcard::to_allocvec` on the parts of a material profile, in the
/// order of its fields. Claims that the bytes are a function of those parts,
/// and that there are always bytes: every list has a known length and the
/// output is a growing vector.
#[verifier::external_body]
fn encode_material(parts: &PlainMaterial) -> (encoded: Vec<u8>)
    ensures
        encoded@ == material_encoded(parts@),
{
    let fields = parts.projection;
    postcard::to_allocvec(
        &(
            parts.allow_filtered,
            (&fields.header_fields, &fields.transaction_fields, &fields.receipt_fields),
            (&fields.log_fields, parts.log_bits),
            (parts.block_range, &parts.addresses, &parts.topics, parts.transaction_types),
            (&parts.transaction_hashes, &parts.scope_parties, &parts.parties),
        ),
    ).expect("lists of plain values always encode")
}

impl RawHistoryMaterialProfile {
    /// Complete material: nothing filtered, nothing projected away.
    pub open spec fn is_default(self) -> bool {
        &&& !self.allow_filtered
        &&& self.projection.spec_empty()
        &&& self.log_fields == LogFieldSet::spec_all()
        &&& self.filters.spec_empty()
    }

    /// Two profiles hold the same lists.
    pub open spec fn alike(self, other: RawHistoryMaterialProfile) -> bool {
        &&& self.allow_filtered == other.allow_filtered
        &&& self.projection.alike(other.projection)
        &&& self.log_fields == other.log_fields
        &&& self.filters.alike(other.filters)
    }

    /// The profile in plain parts.
    pub open spec fn parts(self) -> MaterialParts {
        let scope = self.filters.scope;
        MaterialParts {
            allow_filtered: self.allow_filtered,
            fields: field_texts(self.projection),
            log_bits: self.log_fields.bits,
            block_range: match scope.block_range {
                Some(range) => Some((range.start.0, range.end.0)),
                None => None,
            },
            addresses: address_bytes(scope.addresses@),
            topics: topic_parts(scope.topics@),
            transaction_types: scope.transaction_types@,
            transaction_hashes: hash_bytes(scope.transaction_hashes@),
            scope_parties: (address_bytes(scope.senders@), address_bytes(scope.recipients@)),
            parties: (address_bytes(self.filters.senders@), address_bytes(self.filters.recipients@)),
        }
    }

    /// The bytes that identify the profile.
    pub open spec fn encoded(self) -> Seq<u8> {
        material_encoded(self.parts())
    }

    /// Complete material has the zero identity; any other profile is
    /// identified by the digest of its encoding.
    pub open spec fn spec_shape_id(self) -> MaterialShapeId {
        if self.is_default() {
            MaterialShapeId::spec_complete()
        } else {
            MaterialShapeId(blake3_digest(self.encoded()))
        }
    }

    /// The canonical form: every field list, and the senders and recipients,
    /// in ascending order without repetition.
    pub open spec fn normal_form(self, normal: RawHistoryMaterialProfile) -> bool {
        &&& normal.allow_filtered == self.allow_filtered
        &&& normal.log_fields == self.log_fields
        &&& normal.filters.scope == self.filters.scope
        &&& normal_list(self.projection.header_fields@, normal.projection.header_fields@)
        &&& normal_list(self.projection.transaction_fields@, normal.projection.transaction_fields@)
        &&& normal_list(self.projection.receipt_fields@, normal.projection.receipt_fields@)
        &&& normal_list(self.projection.log_fields@, normal.projection.log_fields@)
        &&& normal_list(self.filters.senders@, normal.filters.senders@)
        &&& normal_list(self.filters.recipients@, normal.filters.recipients@)
    }

    /// The projection and predicates of a request.
    pub fn from_request(request: &DataRequest) -> (material: RawHistoryMaterialProfile)
        ensures
            material.allow_filtered == request.allow_filtered,
            material.projection.alike(request.projection),
            material.log_fields == request.log_fields,
            material.filters.alike(request.filters),
    {
        RawHistoryMaterialProfile {
            allow_filtered: request.allow_filtered,
            projection: request.projection.clone(),
            log_fields: request.log_fields,
            filters: request.filters.clone(),
        }
    }

    fn complete(&self) -> (complete: bool)
        ensures
            complete == self.is_default(),
    {
        !self.allow_filtered && self.projection.is_empty() && self.log_fields == LogFieldSet::all()
            && self.filters.is_empty()
    }

    fn plain(&self) -> (plain: PlainMaterial)
        ensures
            plain@ == self.parts(),
    {
        let scope: &FilterScope = &self.filters.scope;
        PlainMaterial {
            allow_filtered: self.allow_filtered,
            projection: &self.projection,
            log_bits: self.log_fields.bits,
            block_range: match scope.block_range {
                Some(range) => Some((range.start.0, range.end.0)),
                None => None,
            },
            addresses: plain_addresses(&scope.addresses),
            topics: plain_topics(&scope.topics),
            transaction_types: &scope.transaction_types,
            transaction_hashes: plain_hashes(&scope.transaction_hashes),
            scope_parties: (plain_addresses(&scope.senders), plain_addresses(&scope.recipients)),
            parties: (
                plain_addresses(&self.filters.senders),
                plain_addresses(&self.filters.recipients),
            ),
        }
    }

    /// The bytes that identify the profile.
    pub fn encode(&self) -> (bytes: Vec<u8>)
        ensures
            bytes@ == self.encoded(),
    {
        encode_material(&self.plain())
    }

    /// Stable catalog identity of projection and predicate semantics.
    pub fn shape_id(&self) -> (shape: MaterialShapeId)
        ensures
            shape == self.spec_shape_id(),
    {
        if self.complete() {
            return MaterialShapeId::complete_execution();
        }
        let encoded: Vec<u8> = self.encode();
        MaterialShapeId(blake3_hash(encoded.as_slice()))
    }

    /// Brings the lists into canonical form.
    pub fn normalize(self) -> (normal: RawHistoryMaterialProfile)
        ensures
            self.normal_form(normal),
    {
        RawHistoryMaterialProfile {
            allow_filtered: self.allow_filtered,
            projection: FieldProjection {
                header_fields: sort_dedup(self.projection.header_fields),
                transaction_fields: sort_dedup(self.projection.transaction_fields),
                receipt_fields: sort_dedup(self.projection.receipt_fields),
                log_fields: sort_dedup(self.projection.log_fields),
            },
            log_fields: self.log_fields,
            filters: FilterSet {
                scope: self.filters.scope,
                senders: sort_dedup(self.filters.senders),
                recipients: sort_dedup(self.filters.recipients),
            },
        }
    }
}

pub proof fn lemma_normal_material(given: RawHistoryMaterialProfile, normal: RawHistoryMaterialProfile)
    requires
        given.normal_form(normal),
    ensures
        normal.filters.spec_empty() == given.filters.spec_empty(),
        normal.is_default() == given.is_default(),
{
    lemma_normal_list_empty(given.projection.header_fields@, normal.projection.header_fields@);
    lemma_normal_list_empty(
        given.projection.transaction_fields@,
        normal.projection.transaction_fields@,
    );
    lemma_normal_list_empty(given.projection.receipt_fields@, normal.projection.receipt_fields@);
    lemma_normal_list_empty(given.projection.log_fields@, normal.projection.log_fields@);
    lemma_normal_list_empty(given.filters.senders@, normal.filters.senders@);
    lemma_normal_list_empty(given.filters.recipients@, normal.filters.recipients@);
}

/// Profiles that hold the same lists are the same material.
pub proof fn lemma_alike_shape(left: RawHistoryMaterialProfile, right: RawHistoryMaterialProfile)
    requires
        left.alike(right),
    ensures
        left.parts() == right.parts(),
        left.encoded() == right.encoded(),
        left.spec_shape_id() == right.spec_shape_id(),
{
    assert(topic_parts(left.filters.scope.topics@) =~= topic_parts(right.filters.scope.topics@));
}

/// Canonical idempotency identity of one durable raw-history request.
#[derive(Debug)]
pub struct RawHistoryJobSpec {
    pub chain_id: ChainId,
    pub ranges: Vec<BlockRange>,
    pub profile: RawHistoryProfile,
    pub material: RawHistoryMaterialProfile,
    pub required_capabilities: CapabilitySet,
    pub verification: VerificationClass,
    pub minimum_trust: TrustModel,
    pub source_policy_digest: [u8; 32],
    pub retention: RawHistoryRetention,
    pub segment: RawHistorySegmentPolicy,
    pub indexes: RawHistoryIndexPolicy,
}

impl Clone for RawHistoryJobSpec {
    fn clone(&self) -> (copy: RawHistoryJobSpec)
        ensures
            copy.alike(*self),
    {
        RawHistoryJobSpec {
            chain_id: self.chain_id,
            ranges: clone_list(&self.ranges),
            profile: self.profile,
            material: self.material.clone(),
            required_capabilities: self.required_capabilities,
            verification: self.verification,
            minimum_trust: self.minimum_trust,
            source_policy_digest: self.source_policy_digest,
            retention: self.retention,
            segment: self.segment,
            indexes: self.indexes,
        }
    }
}

/// The smallest start of a non-empty list of ranges.
pub open spec fn earliest(ranges: Seq<BlockRange>) -> BlockNumber
    decreases ranges.len(),
{
    if ranges.len() <= 1 {
        ranges[0].start
    } else {
        let before = earliest(ranges.drop_last());
        if ranges.last().start.0 < before.0 {
            ranges.last().start
        } else {
            before
        }
    }
}

proof fn lemma_earliest(ranges: Seq<BlockRange>)
    requires
        ranges.len() > 0,
    ensures
        exists|i: int| 0 <= i < ranges.len() && (#[trigger] ranges[i]).start == earliest(ranges),
        forall|i: int| 0 <= i < ranges.len() ==> earliest(ranges).0 <= (#[trigger] ranges[i]).start.0,
    decreases ranges.len(),
{
    if ranges.len() > 1 {
        let before = ranges.drop_last();
        lemma_earliest(before);
        let at = choose|i: int| 0 <= i < before.len() && (#[trigger] before[i]).start == earliest(
            before,
        );
        assert(ranges[at] == before[at]);
        assert(ranges[ranges.len() - 1] == ranges.last());
        assert forall|i: int| 0 <= i < ranges.len() implies earliest(ranges).0 <= (
        #[trigger] ranges[i]).start.0 by {
            if i < before.len() {
                assert(ranges[i] == before[i]);
            }
        }
    } else {
        assert(ranges[0].start == earliest(ranges));
    }
}

/// Merging keeps the smallest start, and puts it first.
pub proof fn lemma_earliest_is_first(ranges: Seq<BlockRange>, merged: Seq<BlockRange>)
    requires
        ranges.len() > 0,
        merged.len() > 0,
        all_wf(ranges),
        separated(merged),
        forall|height: int| #[trigger] covers(merged, height) <==> covers(ranges, height),
    ensures
        merged[0].start == earliest(ranges),
{
    lemma_earliest(ranges);
    let at = choose|i: int| 0 <= i < ranges.len() && (#[trigger] ranges[i]).start == earliest(
        ranges,
    );
    let low = earliest(ranges).0 as int;
    assert(ranges[at].has(low));
    assert(covers(ranges, low));
    assert(covers(merged, low));
    let m = choose|i: int| 0 <= i < merged.len() && (#[trigger] merged[i]).has(low);
    assert(merged[0].wf());
    if m > 0 {
        assert(merged[0].end.0 + 1 < merged[m].start.0);
    }
    let first = merged[0].start.0 as int;
    assert(merged[0].has(first));
    assert(covers(merged, first));
    assert(covers(ranges, first));
    let r = choose|i: int| 0 <= i < ranges.len() && (#[trigger] ranges[i]).has(first);
    assert(earliest(ranges).0 <= ranges[r].start.0);
}

/// The trust that a verification class stands for.
pub open spec fn trust_of(verification: VerificationClass) -> TrustModel {
    match verification {
        VerificationClass::BestEffort => TrustModel::Untrusted,
        VerificationClass::TrustedDataset => TrustModel::TrustedDataset,
        VerificationClass::Cryptographic => TrustModel::ProtocolVerified,
    }
}

/// Headers, transactions and receipts.
pub open spec fn execution_capabilities() -> CapabilitySet {
    CapabilitySet::spec_none().spec_with(Capability::Header).spec_with(
        Capability::Transactions,
    ).spec_with(Capability::Receipts)
}

/// Most ranges that one job may name.
pub const MAXIMUM_JOB_RANGES: usize = 1024;

impl RawHistoryJobSpec {
    /// Two requests agree in every field.
    pub open spec fn alike(self, other: RawHistoryJobSpec) -> bool {
        &&& self.chain_id == other.chain_id
        &&& self.ranges@ == other.ranges@
        &&& self.profile == other.profile
        &&& self.material.alike(other.material)
        &&& self.required_capabilities == other.required_capabilities
        &&& self.verification == other.verification
        &&& self.minimum_trust == other.minimum_trust
        &&& self.source_policy_digest == other.source_policy_digest
        &&& self.retention == other.retention
        &&& self.segment == other.segment
        &&& self.indexes == other.indexes
    }

    /// What the execution-RPC profile refuses.
    pub open spec fn profile_problem(self) -> Option<JobProblem> {
        match self.profile {
            RawHistoryProfile::ProcessorReuse => None,
            RawHistoryProfile::PostMergeExecutionRpc { merge_block } => {
                if earliest(self.ranges@).0 < merge_block.0 {
                    Some(JobProblem::BeforeMerge { merge_block, start: earliest(self.ranges@) })
                } else if !self.material.is_default() {
                    Some(
                        JobProblem::Text(
                            "post_merge_execution_rpc requires complete unfiltered material",
                        ),
                    )
                } else if !self.required_capabilities.derivable().has_all(
                    execution_capabilities(),
                ) {
                    Some(
                        JobProblem::Text(
                            "post_merge_execution_rpc requires complete headers, transactions, and receipts",
                        ),
                    )
                } else if self.verification.spec_rank()
                    < VerificationClass::TrustedDataset.spec_rank()
                    || self.minimum_trust.spec_rank() < TrustModel::TrustedDataset.spec_rank() {
                    Some(
                        JobProblem::Text(
                            "post_merge_execution_rpc requires trusted-dataset verification and trust or stronger",
                        ),
                    )
                } else {
                    None
                }
            },
        }
    }

    /// The first reason to refuse the request.
    pub open spec fn problem(self) -> Option<JobProblem> {
        if self.chain_id.0 == 0 {
            Some(JobProblem::Text("chain ID must be non-zero"))
        } else if self.ranges@.len() == 0 || self.ranges@.len() > MAXIMUM_JOB_RANGES {
            Some(JobProblem::Text("raw-history job requires 1..=1024 ranges"))
        } else if !self.material.allow_filtered && !self.material.filters.spec_empty() {
            Some(JobProblem::Text("unfiltered raw material cannot carry source predicates"))
        } else if self.required_capabilities == CapabilitySet::spec_none()
            || self.required_capabilities.has(Capability::Mempool) {
            Some(
                JobProblem::Text(
                    "historical capabilities must be non-empty and cannot include mempool",
                ),
            )
        } else if self.indexes.logs {
            Some(
                JobProblem::Text(
                    "raw log indexes are not implemented; use receipt scans or disable indexes.logs",
                ),
            )
        } else if self.indexes.transaction_hash && (self.material.allow_filtered
            || !self.required_capabilities.has(Capability::Transactions)) {
            Some(
                JobProblem::Text(
                    "transaction-hash locators require complete unfiltered transaction material",
                ),
            )
        } else if self.profile_problem() is Some {
            self.profile_problem()
        } else if self.segment.target_blocks == 0 || self.segment.maximum_logical_bytes == 0
            || self.segment.maximum_physical_bytes == 0 {
            Some(JobProblem::Text("segment limits and target block span must be non-zero"))
        } else if self.retention == (RawHistoryRetention::Window { blocks: 0 }) {
            Some(JobProblem::Text("window retention must keep at least one block"))
        } else if self.minimum_trust.spec_rank() < trust_of(self.verification).spec_rank() {
            Some(
                JobProblem::Text("minimum trust is weaker than the requested verification class"),
            )
        } else {
            None
        }
    }

    /// The canonical form: merged ranges and canonical material, with every
    /// other field as it is.
    pub open spec fn normal_form(self, normal: RawHistoryJobSpec) -> bool {
        &&& normal.chain_id == self.chain_id
        &&& separated(normal.ranges@)
        &&& normal.ranges@.len() <= self.ranges@.len()
        &&& forall|height: int| #[trigger]
            covers(normal.ranges@, height) <==> covers(self.ranges@, height)
        &&& normal.profile == self.profile
        &&& self.material.normal_form(normal.material)
        &&& normal.required_capabilities == self.required_capabilities
        &&& normal.verification == self.verification
        &&& normal.minimum_trust == self.minimum_trust
        &&& normal.source_policy_digest == self.source_policy_digest
        &&& normal.retention == self.retention
        &&& normal.segment == self.segment
        &&& normal.indexes == self.indexes
    }

    /// Accepts a request in canonical form, or says what is wrong with it.
    pub fn normalize(self) -> (outcome: Result<RawHistoryJobSpec, HistoryStoreError>)
        requires
            all_wf(self.ranges@),
        ensures
            match outcome {
                Ok(normal) => self.problem() is None && self.normal_form(normal)
                    && normal.ranges@.len() > 0,
                Err(error) => match self.problem() {
                    Some(problem) => error == HistoryStoreError::InvalidJob(problem),
                    None => false,
                },
            },
    {
        if self.chain_id.0 == 0 {
            return invalid("chain ID must be non-zero");
        }
        let ranges: Vec<BlockRange> = normalize_ranges(&self.ranges)?;
        let ghost given = self;
        let material: RawHistoryMaterialProfile = self.material.normalize();
        proof {
            lemma_normal_material(given.material, material);
            lemma_earliest_is_first(given.ranges@, ranges@);
        }
        let normal = RawHistoryJobSpec {
            chain_id: self.chain_id,
            ranges,
            profile: self.profile,
            material,
            required_capabilities: self.required_capabilities,
            verification: self.verification,
            minimum_trust: self.minimum_trust,
            source_policy_digest: self.source_policy_digest,
            retention: self.retention,
            segment: self.segment,
            indexes: self.indexes,
        };
        if !normal.material.allow_filtered && !normal.material.filters.is_empty() {
            return invalid("unfiltered raw material cannot carry source predicates");
        }
        if normal.required_capabilities == CapabilitySet::none()
            || normal.required_capabilities.contains(Capability::Mempool) {
            return invalid("historical capabilities must be non-empty and cannot include mempool");
        }
        if normal.indexes.logs {
            return invalid(
                "raw log indexes are not implemented; use receipt scans or disable indexes.logs",
            );
        }
        if normal.indexes.transaction_hash && (normal.material.allow_filtered
            || !normal.required_capabilities.contains(Capability::Transactions)) {
            return invalid(
                "transaction-hash locators require complete unfiltered transaction material",
            );
        }
        if let RawHistoryProfile::PostMergeExecutionRpc { merge_block } = normal.profile {
            let first: BlockNumber = normal.ranges[0].start();
            if first.0 < merge_block.0 {
                return Err(
                    HistoryStoreError::InvalidJob(
                        JobProblem::BeforeMerge { merge_block, start: first },
                    ),
                );
            }
            if !normal.material.complete() {
                return invalid("post_merge_execution_rpc requires complete unfiltered material");
            }
            let execution = CapabilitySet::none().with(Capability::Header).with(
                Capability::Transactions,
            ).with(Capability::Receipts);
            if !normal.required_capabilities.with_derivable().contains_all(execution) {
                return invalid(
                    "post_merge_execution_rpc requires complete headers, transactions, and receipts",
                );
            }
            if normal.verification.rank() < VerificationClass::TrustedDataset.rank()
                || normal.minimum_trust.rank() < TrustModel::TrustedDataset.rank() {
                return invalid(
                    "post_merge_execution_rpc requires trusted-dataset verification and trust or stronger",
                );
            }
        }
        if normal.segment.target_blocks == 0 || normal.segment.maximum_logical_bytes == 0
            || normal.segment.maximum_physical_bytes == 0 {
            return invalid("segment limits and target block span must be non-zero");
        }
        if normal.retention == (RawHistoryRetention::Window { blocks: 0 }) {
            return invalid("window retention must keep at least one block");
        }
        if normal.minimum_trust.rank() < required_trust(normal.verification).rank() {
            return invalid("minimum trust is weaker than the requested verification class");
        }
        Ok(normal)
    }
}

fn invalid(text: &'static str) -> (outcome: Result<RawHistoryJobSpec, HistoryStoreError>)
    ensures
        outcome == Err::<RawHistoryJobSpec, HistoryStoreError>(
            HistoryStoreError::InvalidJob(JobProblem::Text(text)),
        ),
{
    Err(HistoryStoreError::InvalidJob(JobProblem::Text(text)))
}

/// The trust that a verification class stands for.
pub fn required_trust(verification: VerificationClass) -> (trust: TrustModel)
    ensures
        trust == trust_of(verification),
{
    match verification {
        VerificationClass::BestEffort => TrustModel::Untrusted,
        VerificationClass::TrustedDataset => TrustModel::TrustedDataset,
        VerificationClass::Cryptographic => TrustModel::ProtocolVerified,
    }
}

/// The ranges as plain pairs.
pub open spec fn range_pairs(ranges: Seq<BlockRange>) -> Seq<(u64, u64)> {
    ranges.map_values(|range: BlockRange| (range.start.0, range.end.0))
}

fn plain_ranges(ranges: &Vec<BlockRange>) -> (plain: Vec<(u64, u64)>)
    ensures
        plain@ == range_pairs(ranges@),
{
    let mut plain: Vec<(u64, u64)> = Vec::new();
    let mut index: usize = 0;
    while index < ranges.len()
        invariant
            index <= ranges@.len(),
            plain@ == range_pairs(ranges@.take(index as int)),
        decreases ranges@.len() - index,
    {
        plain.push((ranges[index].start.0, ranges[index].end.0));
        index += 1;
        assert(plain@ =~= range_pairs(ranges@.take(index as int)));
    }
    assert(ranges@.take(index as int) =~= ranges@);
    plain
}

/// The bytes that postcard writes for the parts of a request.
pub uninterp spec fn request_encoded(
    chain_id: u64,
    ranges: Seq<(u64, u64)>,
    merge_block: Option<u64>,
    material: MaterialParts,
    guarantees: (u16, u8, u8),
    source_policy_digest: [u8; 32],
    window: Option<u64>,
    segment: (u64, u64, u64, u8, bool),
    indexes: (bool, bool, bool),
) -> Seq<u8>;

/// Calls `postcard::to_allocvec` on the parts of a request, in the order of
/// its fields, with the parts of its material profile among them. Claims that
/// the bytes are a function of those parts, and that there are always bytes:
/// every list has a known length and the output is a growing vector.
#[verifier::external_body]
fn encode_request(
    chain_id: u64,
    ranges: &Vec<(u64, u64)>,
    merge_block: Option<u64>,
    material: &PlainMaterial,
    guarantees: (u16, u8, u8),
    source_policy_digest: &[u8; 32],
    window: Option<u64>,
    segment: (u64, u64, u64, u8, bool),
    indexes: (bool, bool, bool),
) -> (encoded: Vec<u8>)
    ensures
        encoded@ == request_encoded(
            chain_id,
            ranges@,
            merge_block,
            material@,
            guarantees,
            *source_policy_digest,
            window,
            segment,
            indexes,
        ),
{
    let (m, f) = (material, material.projection);
    postcard::to_allocvec(
        &(
            (chain_id, ranges, merge_block, m.allow_filtered),
            (&f.header_fields, &f.transaction_fields, &f.receipt_fields, &f.log_fields, m.log_bits),
            (m.block_range, &m.addresses, &m.topics, m.transaction_types, &m.transaction_hashes),
            (&m.scope_parties, &m.parties),
            (guarantees, source_policy_digest, window, segment, indexes),
        ),
    ).expect("lists of plain values always encode")
}

impl RawHistoryJobSpec {
    /// The bytes that identify a request.
    pub open spec fn encoded(self) -> Seq<u8> {
        request_encoded(
            self.chain_id.0,
            range_pairs(self.ranges@),
            match self.profile {
                RawHistoryProfile::ProcessorReuse => None,
                RawHistoryProfile::PostMergeExecutionRpc { merge_block } => Some(merge_block.0),
            },
            self.material.parts(),
            (
                self.required_capabilities.bits,
                self.verification.spec_rank(),
                self.minimum_trust.spec_rank(),
            ),
            self.source_policy_digest,
            match self.retention {
                RawHistoryRetention::Full => None,
                RawHistoryRetention::Window { blocks } => Some(blocks),
            },
            (
                self.segment.target_blocks,
                self.segment.maximum_logical_bytes,
                self.segment.maximum_physical_bytes,
                self.segment.compression.spec_byte(),
                self.segment.on_limit == StorageLimitAction::Fail,
            ),
            (self.indexes.block_hash, self.indexes.transaction_hash, self.indexes.logs),
        )
    }

    /// Idempotency identity of a canonical request.
    pub open spec fn spec_identity(self) -> [u8; 32] {
        blake3_digest(self.encoded())
    }

    /// The bytes that identify a request, under which it is kept.
    pub fn encode(&self) -> (encoded: Vec<u8>)
        ensures
            encoded@ == self.encoded(),
    {
        let merge_block: Option<u64> = match self.profile {
            RawHistoryProfile::ProcessorReuse => None,
            RawHistoryProfile::PostMergeExecutionRpc { merge_block } => Some(merge_block.0),
        };
        let window: Option<u64> = match self.retention {
            RawHistoryRetention::Full => None,
            RawHistoryRetention::Window { blocks } => Some(blocks),
        };
        encode_request(
            self.chain_id.0,
            &plain_ranges(&self.ranges),
            merge_block,
            &self.material.plain(),
            (self.required_capabilities.bits, self.verification.rank(), self.minimum_trust.rank()),
            &self.source_policy_digest,
            window,
            (
                self.segment.target_blocks,
                self.segment.maximum_logical_bytes,
                self.segment.maximum_physical_bytes,
                self.segment.compression.byte(),
                self.segment.on_limit == StorageLimitAction::Fail,
            ),
            (self.indexes.block_hash, self.indexes.transaction_hash, self.indexes.logs),
        )
    }

    pub fn identity(&self) -> (identity: [u8; 32])
        ensures
            identity == self.spec_identity(),
    {
        let encoded: Vec<u8> = self.encode();
        blake3_hash(encoded.as_slice())
    }
}

/// Merges the ranges of a job, of which there are 1 to 1024.
pub fn normalize_ranges(ranges: &Vec<BlockRange>) -> (outcome: Result<
    Vec<BlockRange>,
    HistoryStoreError,
>)
    requires
        all_wf(ranges@),
    ensures
        match outcome {
            Ok(merged) => {
                &&& 0 < ranges@.len() <= MAXIMUM_JOB_RANGES
                &&& 0 < merged@.len() <= ranges@.len()
                &&& separated(merged@)
                &&& forall|height: int| #[trigger]
                    covers(merged@, height) <==> covers(ranges@, height)
            },
            Err(error) => {
                &&& ranges@.len() == 0 || ranges@.len() > MAXIMUM_JOB_RANGES
                &&& error == HistoryStoreError::InvalidJob(
                    JobProblem::Text("raw-history job requires 1..=1024 ranges"),
                )
            },
        },
{
    if ranges.len() == 0 || ranges.len() > MAXIMUM_JOB_RANGES {
        return Err(
            HistoryStoreError::InvalidJob(
                JobProblem::Text("raw-history job requires 1..=1024 ranges"),
            ),
        );
    }
    Ok(merge_ranges(ranges.as_slice()))
}

} // verus!
