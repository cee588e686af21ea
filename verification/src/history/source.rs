//! Retained segments as a source of finalized history.

use crate::bytes::{be64, push_bytes, push_u64};
use crate::history::error::HistoryStoreError;
use crate::history::job::{normal_list, required_trust, trust_of, RawHistoryProfile};
use crate::history::layout::{MaterialShapeId, SegmentDescriptor, VerificationClass};
use crate::history::rows::SegmentRecord;
use crate::order::{sort_dedup, Keyed};
use crate::primitives::{BlockRange, Capability, CapabilitySet, ChainId, TrustModel};
use crate::request::{
    DataRequest, FinalityModel, LogFieldSet, Partitioning, SourceDescriptor, SourceError,
    SourceKind, VerificationPolicy,
};
use crate::text::{decimal_digits, hex_encode, hex_text, push_decimal};
use vstd::prelude::*;
use vstd::utf8::encode_utf8;

verus! {

/// Version of the chunks that this source plans.
pub open spec fn retained_schema_version() -> &'static str {
    "retained-raw-segment.v1"
}

/// One profile-specific view over the shared raw segment catalog.
#[derive(Debug)]
pub struct RetainedHistorySourceConfig {
    pub id: String,
    pub chain_id: ChainId,
    pub material_shape: MaterialShapeId,
    pub capabilities: CapabilitySet,
    pub log_fields: LogFieldSet,
    pub verification: VerificationClass,
    pub trust: TrustModel,
    pub priority: u16,
    pub required_profile: RawHistoryProfile,
}

/// What a source may offer: a chain, historical material, and trust that
/// stands for its verification class.
pub open spec fn valid_offer(
    chain_id: ChainId,
    capabilities: CapabilitySet,
    verification: VerificationClass,
    trust: TrustModel,
) -> bool {
    &&& chain_id.0 != 0
    &&& capabilities != CapabilitySet::spec_none()
    &&& !capabilities.has(Capability::Mempool)
    &&& trust.spec_rank() >= trust_of(verification).spec_rank()
}

impl RetainedHistorySourceConfig {
    /// The conventional highest-priority local source.
    pub fn local(
        chain_id: ChainId,
        material_shape: MaterialShapeId,
        capabilities: CapabilitySet,
        verification: VerificationClass,
        trust: TrustModel,
    ) -> (outcome: Result<RetainedHistorySourceConfig, SourceError>)
        ensures
            match outcome {
                Ok(config) => {
                    &&& valid_offer(chain_id, capabilities, verification, trust)
                    &&& config.id@ == "retained-"@ + decimal_digits(chain_id.0 as nat) + "-"@
                        + hex_text(material_shape.0@.subrange(0, 6))
                    &&& config == (RetainedHistorySourceConfig {
                        id: config.id,
                        chain_id,
                        material_shape,
                        capabilities,
                        log_fields: LogFieldSet::spec_all(),
                        verification,
                        trust,
                        priority: 0,
                        required_profile: RawHistoryProfile::ProcessorReuse,
                    })
                },
                Err(error) => !valid_offer(chain_id, capabilities, verification, trust) && error
                    == SourceError::InvalidPlan("invalid retained-history source profile"),
            },
    {
        if chain_id.0 == 0 || capabilities == CapabilitySet::none() || capabilities.contains(
            Capability::Mempool,
        ) || trust.rank() < required_trust(verification).rank() {
            return Err(SourceError::InvalidPlan("invalid retained-history source profile"));
        }
        let mut id: String = "retained-".to_owned();
        push_decimal(&mut id, chain_id.0);
        id.append("-");
        let shape: &[u8] = &material_shape.0;
        id.append(hex_encode(&shape[0..6]).as_str());
        Ok(
            RetainedHistorySourceConfig {
                id,
                chain_id,
                material_shape,
                capabilities,
                log_fields: LogFieldSet::all(),
                verification,
                trust,
                priority: 0,
                required_profile: RawHistoryProfile::ProcessorReuse,
            },
        )
    }

    pub fn requiring_profile(self, profile: RawHistoryProfile) -> (config:
        RetainedHistorySourceConfig)
        ensures
            config == (RetainedHistorySourceConfig { required_profile: profile, ..self }),
    {
        RetainedHistorySourceConfig {
            id: self.id,
            chain_id: self.chain_id,
            material_shape: self.material_shape,
            capabilities: self.capabilities,
            log_fields: self.log_fields,
            verification: self.verification,
            trust: self.trust,
            priority: self.priority,
            required_profile: profile,
        }
    }

    pub fn with_log_fields(self, log_fields: LogFieldSet) -> (config: RetainedHistorySourceConfig)
        ensures
            config == (RetainedHistorySourceConfig { log_fields, ..self }),
    {
        RetainedHistorySourceConfig {
            id: self.id,
            chain_id: self.chain_id,
            material_shape: self.material_shape,
            capabilities: self.capabilities,
            log_fields,
            verification: self.verification,
            trust: self.trust,
            priority: self.priority,
            required_profile: self.required_profile,
        }
    }

    /// A valid offer that promises log fields only with logs.
    pub open spec fn valid(self) -> bool {
        &&& valid_offer(self.chain_id, self.capabilities, self.verification, self.trust)
        &&& self.log_fields != LogFieldSet::spec_none() ==> self.capabilities.derivable().has(
            Capability::Logs,
        )
    }
}

/// Physical work performed by the local retained source. The counters wrap
/// around.
#[derive(Clone, Copy, Debug, PartialEq, Eq, Structural)]
pub struct RetainedHistorySourceStats {
    pub segment_opens: u64,
    pub record_reads: u64,
    pub stored_record_bytes: u64,
    pub decompressed_bytes: u64,
    pub cache_hits: u64,
    pub locator_uses: u64,
}

impl Default for RetainedHistorySourceStats {
    fn default() -> (stats: RetainedHistorySourceStats)
        ensures
            stats == (RetainedHistorySourceStats {
                segment_opens: 0,
                record_reads: 0,
                stored_record_bytes: 0,
                decompressed_bytes: 0,
                cache_hits: 0,
                locator_uses: 0,
            }),
    {
        RetainedHistorySourceStats {
            segment_opens: 0,
            record_reads: 0,
            stored_record_bytes: 0,
            decompressed_bytes: 0,
            cache_hits: 0,
            locator_uses: 0,
        }
    }
}

/// Addition that wraps around.
pub open spec fn wrapped(left: u64, right: u64) -> u64 {
    if left + right > u64::MAX {
        (left + right - u64::MAX - 1) as u64
    } else {
        (left + right) as u64
    }
}

pub(crate) fn add_wrapping(left: u64, right: u64) -> (sum: u64)
    ensures
        sum == wrapped(left, right),
{
    left.wrapping_add(right)
}

impl RetainedHistorySourceStats {
    /// A segment was opened.
    pub fn opened(&mut self)
        ensures
            *final(self) == (RetainedHistorySourceStats {
                segment_opens: wrapped(old(self).segment_opens, 1),
                ..*old(self)
            }),
    {
        self.segment_opens = add_wrapping(self.segment_opens, 1);
    }

    /// A record was read.
    pub fn read(&mut self, stored: u64, logical: u64)
        ensures
            *final(self) == (RetainedHistorySourceStats {
                record_reads: wrapped(old(self).record_reads, 1),
                stored_record_bytes: wrapped(old(self).stored_record_bytes, stored),
                decompressed_bytes: wrapped(old(self).decompressed_bytes, logical),
                ..*old(self)
            }),
    {
        self.record_reads = add_wrapping(self.record_reads, 1);
        self.stored_record_bytes = add_wrapping(self.stored_record_bytes, stored);
        self.decompressed_bytes = add_wrapping(self.decompressed_bytes, logical);
    }

    /// A record was found by a locator, and read.
    pub fn located(&mut self, stored: u64, logical: u64)
        ensures
            *final(self) == (RetainedHistorySourceStats {
                locator_uses: wrapped(old(self).locator_uses, 1),
                segment_opens: wrapped(old(self).segment_opens, 1),
                record_reads: wrapped(old(self).record_reads, 1),
                stored_record_bytes: wrapped(old(self).stored_record_bytes, stored),
                decompressed_bytes: wrapped(old(self).decompressed_bytes, logical),
                ..*old(self)
            }),
    {
        self.locator_uses = add_wrapping(self.locator_uses, 1);
        self.opened();
        self.read(stored, logical);
    }
}

/// Dynamic catalog-backed source of finalized history.
#[derive(Debug)]
pub struct RetainedHistorySource {
    pub config: RetainedHistorySourceConfig,
    pub descriptor: SourceDescriptor,
    pub stats: RetainedHistorySourceStats,
}

/// The verification class that a policy asks for.
pub open spec fn class_of_policy(policy: VerificationPolicy) -> VerificationClass {
    match policy {
        VerificationPolicy::CompleteCryptographic => VerificationClass::Cryptographic,
        VerificationPolicy::TrustedDataset => VerificationClass::TrustedDataset,
        VerificationPolicy::BestEffort => VerificationClass::BestEffort,
    }
}

pub fn verification_for_policy(policy: VerificationPolicy) -> (class: VerificationClass)
    ensures
        class == class_of_policy(policy),
{
    match policy {
        VerificationPolicy::CompleteCryptographic => VerificationClass::Cryptographic,
        VerificationPolicy::TrustedDataset => VerificationClass::TrustedDataset,
        VerificationPolicy::BestEffort => VerificationClass::BestEffort,
    }
}

/// The trust that a policy asks for is that of its verification class.
pub fn minimum_trust_for_policy(policy: VerificationPolicy) -> (trust: TrustModel)
    ensures
        trust == trust_of(class_of_policy(policy)),
{
    match policy {
        VerificationPolicy::CompleteCryptographic => TrustModel::ProtocolVerified,
        VerificationPolicy::TrustedDataset => TrustModel::TrustedDataset,
        VerificationPolicy::BestEffort => TrustModel::Untrusted,
    }
}

/// A segment that was lost is unavailable; anything else means that the store
/// is corrupt.
pub fn source_store_error(error: HistoryStoreError) -> (refusal: SourceError)
    ensures
        refusal == (match error {
            HistoryStoreError::UnknownSegment(id) => SourceError::SegmentUnavailable(id),
            other => SourceError::CorruptStore(other),
        }),
{
    match error {
        HistoryStoreError::UnknownSegment(id) => SourceError::SegmentUnavailable(id),
        other => SourceError::CorruptStore(other),
    }
}

/// A segment that may serve a request. Candidates are ordered by start, the
/// longer one first, and then by name.
#[derive(Debug)]
pub struct Candidate {
    pub record: SegmentRecord,
}

impl Keyed for Candidate {
    open spec fn key(&self) -> Seq<u8> {
        be64(self.record.metadata.descriptor.range.start.0) + be64(
            (u64::MAX - self.record.metadata.descriptor.range.end.0) as u64,
        ) + encode_utf8(self.record.metadata.id@)
    }

    fn key_bytes(&self) -> (bytes: Vec<u8>) {
        let mut bytes: Vec<u8> = Vec::new();
        push_u64(&mut bytes, self.record.metadata.descriptor.range.start.0);
        push_u64(&mut bytes, u64::MAX - self.record.metadata.descriptor.range.end.0);
        push_bytes(&mut bytes, self.record.metadata.id.as_str().as_bytes());
        assert(bytes@ =~= self.key());
        bytes
    }
}

/// The candidates' ranges.
pub open spec fn candidate_ranges(candidates: Seq<Candidate>) -> Seq<BlockRange> {
    candidates.map_values(|candidate: Candidate| candidate.record.metadata.descriptor.range)
}

impl RetainedHistorySource {
    /// A source over the catalog. It needs no coverage yet: segments become
    /// visible to later plans as they are closed.
    pub fn new(config: RetainedHistorySourceConfig) -> (outcome: Result<
        RetainedHistorySource,
        SourceError,
    >)
        ensures
            match outcome {
                Ok(source) => {
                    &&& config.valid()
                    &&& source.config == config
                    &&& source.descriptor.id == config.id
                    &&& source.descriptor.kind == SourceKind::RetainedHistory
                    &&& source.descriptor.chain_id == config.chain_id
                    &&& source.descriptor.range is None
                    &&& source.descriptor.capabilities == config.capabilities
                    &&& source.descriptor.complete_capabilities == config.capabilities
                    &&& source.descriptor.trust == config.trust
                    &&& source.descriptor.finality == FinalityModel::Finalized
                    &&& source.descriptor.partitioning matches Partitioning::SourceDefined(name)
                        && name@ == "raw-segment"@
                    &&& source.descriptor.expected_lag_millis == 0
                    &&& source.descriptor.schema_version@ == retained_schema_version()@
                    &&& source.descriptor.priority == config.priority
                    &&& source.stats == (RetainedHistorySourceStats {
                        segment_opens: 0,
                        record_reads: 0,
                        stored_record_bytes: 0,
                        decompressed_bytes: 0,
                        cache_hits: 0,
                        locator_uses: 0,
                    })
                },
                Err(error) => !config.valid() && error == SourceError::InvalidPlan(
                    "invalid retained-history source profile",
                ),
            },
    {
        if config.chain_id.0 == 0 || config.capabilities == CapabilitySet::none()
            || config.capabilities.contains(Capability::Mempool) || (config.log_fields
            != LogFieldSet::none() && !config.capabilities.with_derivable().contains(
            Capability::Logs,
        )) || config.trust.rank() < required_trust(config.verification).rank() {
            return Err(SourceError::InvalidPlan("invalid retained-history source profile"));
        }
        let descriptor = SourceDescriptor {
            id: config.id.clone(),
            kind: SourceKind::RetainedHistory,
            chain_id: config.chain_id,
            range: None,
            capabilities: config.capabilities,
            complete_capabilities: config.capabilities,
            trust: config.trust,
            finality: FinalityModel::Finalized,
            partitioning: Partitioning::SourceDefined("raw-segment".to_owned()),
            expected_lag_millis: 0,
            schema_version: "retained-raw-segment.v1".to_owned(),
            priority: config.priority,
        };
        Ok(
            RetainedHistorySource {
                config,
                descriptor,
                stats: RetainedHistorySourceStats::default(),
            },
        )
    }

    /// A segment of the source's view that shares a height with the request.
    pub open spec fn in_view(self, record: SegmentRecord, request: DataRequest) -> bool {
        let descriptor = record.metadata.descriptor;
        &&& descriptor.chain_id == request.chain_id
        &&& descriptor.material_shape == self.config.material_shape
        &&& record.profile.serves(self.config.required_profile)
        &&& descriptor.range.end.0 >= request.range.start.0
        &&& descriptor.range.start.0 <= request.range.end.0
    }

    /// A segment of the view that meets the request's guarantees and the
    /// source's own.
    pub open spec fn compatible(self, record: SegmentRecord, request: DataRequest) -> bool {
        let descriptor = record.metadata.descriptor;
        let class = class_of_policy(request.verification_policy);
        &&& self.in_view(record, request)
        &&& descriptor.complete_capabilities.derivable().has_all(request.required)
        &&& descriptor.verification.spec_rank() >= class.spec_rank()
        &&& descriptor.verification.spec_rank() >= self.config.verification.spec_rank()
        &&& descriptor.trust.spec_rank() >= trust_of(class).spec_rank()
        &&& descriptor.trust.spec_rank() >= self.config.trust.spec_rank()
    }

    /// The compatible segments among the first `count` records.
    pub open spec fn candidates(
        self,
        records: Seq<SegmentRecord>,
        request: DataRequest,
        count: int,
    ) -> Seq<Candidate>
        decreases count,
    {
        if count <= 0 {
            Seq::empty()
        } else {
            let before = self.candidates(records, request, count - 1);
            if self.compatible(records[count - 1], request) {
                before.push(Candidate { record: records[count - 1] })
            } else {
                before
            }
        }
    }

    /// What the view holds of the request at all, over the first `count`
    /// records.
    pub open spec fn available(
        self,
        records: Seq<SegmentRecord>,
        request: DataRequest,
        count: int,
    ) -> CapabilitySet
        decreases count,
    {
        if count <= 0 {
            CapabilitySet::spec_none()
        } else {
            let before = self.available(records, request, count - 1);
            if self.in_view(records[count - 1], request) {
                CapabilitySet {
                    bits: before.bits | records[count
                        - 1].metadata.descriptor.complete_capabilities.derivable().bits,
                }
            } else {
                before
            }
        }
    }

    /// The segments that can serve a request, in order, and what there is of
    /// it at all. Fields that the source does not keep leave nothing.
    pub fn compatible_segments(&self, records: &Vec<SegmentRecord>, request: &DataRequest) -> (found:
        (Vec<Candidate>, CapabilitySet))
        ensures
            if self.config.log_fields.has_all(request.log_fields) {
                &&& normal_list(
                    self.candidates(records@, *request, records@.len() as int),
                    found.0@,
                )
                &&& found.1 == self.available(records@, *request, records@.len() as int)
            } else {
                found.0@.len() == 0 && found.1 == CapabilitySet::spec_none()
            },
            forall|i: int|
                0 <= i < found.0@.len() ==> self.compatible(
                    (#[trigger] found.0@[i]).record,
                    *request,
                ) && records@.contains(found.0@[i].record),
    {
        let mut available: CapabilitySet = CapabilitySet::none();
        let mut compatible: Vec<Candidate> = Vec::new();
        if !self.config.log_fields.contains_all(request.log_fields) {
            return (compatible, available);
        }
        let policy_class: VerificationClass = verification_for_policy(request.verification_policy);
        let policy_trust: TrustModel = minimum_trust_for_policy(request.verification_policy);
        let mut index: usize = 0;
        while index < records.len()
            invariant
                index <= records@.len(),
                policy_class == class_of_policy(request.verification_policy),
                policy_trust == trust_of(policy_class),
                compatible@ == self.candidates(records@, *request, index as int),
                available == self.available(records@, *request, index as int),
                forall|i: int|
                    0 <= i < compatible@.len() ==> self.compatible(
                        (#[trigger] compatible@[i]).record,
                        *request,
                    ) && records@.contains(compatible@[i].record),
            decreases records@.len() - index,
        {
            let record: &SegmentRecord = &records[index];
            let descriptor: &SegmentDescriptor = &record.metadata.descriptor;
            if descriptor.chain_id == request.chain_id && descriptor.material_shape
                == self.config.material_shape && record.profile.satisfies(
                self.config.required_profile,
            ) && descriptor.range.end.0 >= request.range.start.0 && descriptor.range.start.0
                <= request.range.end.0 {
                let derivable: CapabilitySet = descriptor.complete_capabilities.with_derivable();
                available = available.union(derivable);
                if derivable.contains_all(request.required) && descriptor.verification.rank()
                    >= policy_class.rank() && descriptor.verification.rank()
                    >= self.config.verification.rank() && descriptor.trust.rank()
                    >= policy_trust.rank() && descriptor.trust.rank() >= self.config.trust.rank() {
                    proof {
                        assert(records@.contains(records@[index as int]));
                    }
                    compatible.push(Candidate { record: record.clone() });
                }
            }
            index += 1;
        }
        let ghost listed = compatible@;
        let sorted: Vec<Candidate> = sort_dedup(compatible);
        proof {
            assert forall|i: int| 0 <= i < sorted@.len() implies self.compatible(
                (#[trigger] sorted@[i]).record,
                *request,
            ) && records@.contains(sorted@[i].record) by {
                assert(listed.contains(sorted@[i]));
                let j = choose|j: int| 0 <= j < listed.len() && listed[j] == sorted@[i];
                assert(self.compatible(listed[j].record, *request));
            }
        }
        (sorted, available)
    }

    /// A segment that a lookup may read.
    pub open spec fn lookup_serves(self, record: SegmentRecord, required: CapabilitySet) -> bool {
        let descriptor = record.metadata.descriptor;
        &&& descriptor.chain_id == self.config.chain_id
        &&& descriptor.material_shape == self.config.material_shape
        &&& record.profile.serves(self.config.required_profile)
        &&& descriptor.complete_capabilities.derivable().has_all(required)
        &&& descriptor.verification.spec_rank() >= self.config.verification.spec_rank()
        &&& descriptor.trust.spec_rank() >= self.config.trust.spec_rank()
    }

    pub fn compatible_lookup_segment(&self, record: &SegmentRecord, required: CapabilitySet) -> (
        serves: bool)
        ensures
            serves == self.lookup_serves(*record, required),
    {
        let descriptor: &SegmentDescriptor = &record.metadata.descriptor;
        descriptor.chain_id == self.config.chain_id && descriptor.material_shape
            == self.config.material_shape && record.profile.satisfies(self.config.required_profile)
            && descriptor.complete_capabilities.with_derivable().contains_all(required)
            && descriptor.verification.rank() >= self.config.verification.rank()
            && descriptor.trust.rank() >= self.config.trust.rank()
    }
}

} // verus!
