//! Resumable acquisition of raw-history jobs, one segment at a time.

use crate::bytes::{be16, push_bytes, push_u16};
use crate::digest::{blake3_digest, blake3_hash};
use crate::history::error::HistoryStoreError;
use crate::history::job::normal_list;
use crate::history::layout::{is_segment_id, SegmentId, VerificationClass};
use crate::history::lifecycle::RawHistoryJob;
use crate::order::{has_key, lemma_ascending_unique, sort_dedup, Keyed};
use crate::primitives::{BlockNumber, BlockRange, CapabilitySet, ChainId, TrustModel};
use crate::request::{FinalityModel, SourceError, VerificationPolicy};
use crate::text::{decimal_digits, hex_encode, hex_text, is_portable_char, push_decimal, same_text};
use vstd::prelude::*;
use vstd::utf8::{encode_utf8, encode_utf8_decode_utf8};

verus! {

/// One source of a policy, with what decides whether it can serve a job.
#[derive(Debug)]
pub struct SourceEntry {
    pub id: String,
    pub priority: u16,
    pub schema_version: String,
    pub acquisition_identity: Vec<u8>,
    pub chain_id: ChainId,
    pub finality: FinalityModel,
    pub complete_capabilities: CapabilitySet,
    pub trust: TrustModel,
}

/// Sources are ordered by priority, then by name.
impl Keyed for SourceEntry {
    open spec fn key(&self) -> Seq<u8> {
        be16(self.priority) + encode_utf8(self.id@)
    }

    fn key_bytes(&self) -> (bytes: Vec<u8>) {
        let mut bytes: Vec<u8> = Vec::new();
        push_u16(&mut bytes, self.priority);
        push_bytes(&mut bytes, self.id.as_str().as_bytes());
        assert(bytes@ =~= self.key());
        bytes
    }
}

/// What of the sources identifies a policy.
pub open spec fn policy_parts(sources: Seq<SourceEntry>) -> Seq<
    (Seq<char>, u16, Seq<char>, Seq<u8>),
> {
    sources.map_values(
        |source: SourceEntry|
            (
                source.id@,
                source.priority,
                source.schema_version@,
                source.acquisition_identity@,
            ),
    )
}

/// The entries by value.
pub open spec fn entry_views(entries: Seq<(String, u16, String, Vec<u8>)>) -> Seq<
    (Seq<char>, u16, Seq<char>, Seq<u8>),
> {
    entries.map_values(
        |entry: (String, u16, String, Vec<u8>)| (entry.0@, entry.1, entry.2@, entry.3@),
    )
}

/// The bytes that postcard writes for the entries of a policy.
pub uninterp spec fn policy_encoded(entries: Seq<(Seq<char>, u16, Seq<char>, Seq<u8>)>) -> Seq<u8>;

/// Calls `postcard::to_allocvec` on the entries of a policy. Claims that the
/// bytes are a function of the entries, and that there are always bytes:
/// every list has a known length and the output is a growing vector.
#[verifier::external_body]
fn encode_policy(entries: &Vec<(String, u16, String, Vec<u8>)>) -> (bytes: Vec<u8>)
    ensures
        bytes@ == policy_encoded(entry_views(entries@)),
{
    postcard::to_allocvec(entries).expect("lists of plain values always encode")
}

fn plain_policy(sources: &Vec<SourceEntry>) -> (entries: Vec<(String, u16, String, Vec<u8>)>)
    ensures
        entry_views(entries@) == policy_parts(sources@),
{
    let mut entries: Vec<(String, u16, String, Vec<u8>)> = Vec::new();
    let mut index: usize = 0;
    while index < sources.len()
        invariant
            index <= sources@.len(),
            entries@.len() == index,
            forall|i: int|
                0 <= i < index ==> (#[trigger] entries@[i]).0@ == sources@[i].id@ && entries@[i].1
                    == sources@[i].priority && entries@[i].2@ == sources@[i].schema_version@
                    && entries@[i].3@ == sources@[i].acquisition_identity@,
        decreases sources@.len() - index,
    {
        let source: &SourceEntry = &sources[index];
        let mut identity: Vec<u8> = Vec::new();
        push_bytes(&mut identity, source.acquisition_identity.as_slice());
        assert(identity@ =~= source.acquisition_identity@);
        entries.push(
            (source.id.clone(), source.priority, source.schema_version.clone(), identity),
        );
        index += 1;
    }
    assert(entry_views(entries@) =~= policy_parts(sources@));
    entries
}

/// Why a run, or what it needs, is refused.
#[derive(Debug)]
pub enum RawHistoryRunError {
    InvalidSourceSet(&'static str),
    DuplicateSource(String),
    ConcurrentRun(String),
    SourcePolicyChanged { expected: String, configured: String },
    NoCompatibleSource { range: BlockRange, reasons: Vec<SourceReason> },
    SourcesUnavailable { range: BlockRange, reasons: Vec<SourceReason> },
    Store(HistoryStoreError),
}

/// Ordered immutable source set, used by job identity and failover.
#[derive(Debug)]
pub struct RawHistorySourceSet {
    pub sources: Vec<SourceEntry>,
    pub digest: [u8; 32],
}

/// The first source whose name an earlier one has, from `from` on.
pub open spec fn first_duplicate(sources: Seq<SourceEntry>, from: int) -> Option<int>
    decreases sources.len() - from,
{
    if from < 0 || from >= sources.len() {
        None
    } else if exists|i: int| 0 <= i < from && (#[trigger] sources[i]).id@ == sources[from].id@ {
        Some(from)
    } else {
        first_duplicate(sources, from + 1)
    }
}

fn find_duplicate(sources: &Vec<SourceEntry>) -> (found: Option<usize>)
    ensures
        match found {
            Some(at) => first_duplicate(sources@, 0) == Some(at as int) && at < sources@.len(),
            None => first_duplicate(sources@, 0) is None,
        },
{
    let mut index: usize = 0;
    while index < sources.len()
        invariant
            index <= sources@.len(),
            first_duplicate(sources@, 0) == first_duplicate(sources@, index as int),
        decreases sources@.len() - index,
    {
        let mut earlier: usize = 0;
        while earlier < index
            invariant
                earlier <= index,
                index < sources@.len(),
                first_duplicate(sources@, 0) == first_duplicate(sources@, index as int),
                forall|i: int|
                    0 <= i < earlier ==> (#[trigger] sources@[i]).id@
                        != sources@[index as int].id@,
            decreases index - earlier,
        {
            if same_text(sources[earlier].id.as_str(), sources[index].id.as_str()) {
                assert(sources@[earlier as int].id@ == sources@[index as int].id@);
                return Some(index);
            }
            earlier += 1;
        }
        index += 1;
    }
    None
}

impl RawHistorySourceSet {
    /// The deterministic policy of a set of sources: by priority and name.
    /// Refuses an empty set and a name that occurs twice.
    pub fn new(sources: Vec<SourceEntry>) -> (outcome: Result<
        RawHistorySourceSet,
        RawHistoryRunError,
    >)
        ensures
            match outcome {
                Ok(set) => {
                    &&& sources@.len() > 0
                    &&& first_duplicate(sources@, 0) is None
                    &&& normal_list(sources@, set.sources@)
                    &&& set.digest == blake3_digest(policy_encoded(policy_parts(set.sources@)))
                },
                Err(error) => if sources@.len() == 0 {
                    error == RawHistoryRunError::InvalidSourceSet(
                        "at least one historical source is required",
                    )
                } else {
                    match first_duplicate(sources@, 0) {
                        Some(at) => error == RawHistoryRunError::DuplicateSource(sources@[at].id),
                        None => false,
                    }
                },
            },
    {
        if sources.len() == 0 {
            return Err(
                RawHistoryRunError::InvalidSourceSet("at least one historical source is required"),
            );
        }
        if let Some(at) = find_duplicate(&sources) {
            return Err(RawHistoryRunError::DuplicateSource(sources[at].id.clone()));
        }
        let sorted: Vec<SourceEntry> = sort_dedup(sources);
        let encoded: Vec<u8> = encode_policy(&plain_policy(&sorted));
        Ok(RawHistorySourceSet { sources: sorted, digest: blake3_hash(encoded.as_slice()) })
    }

    pub fn policy_digest(&self) -> (digest: [u8; 32])
        ensures
            digest == self.digest,
    {
        self.digest
    }

    pub fn sources(&self) -> (sources: &Vec<SourceEntry>)
        ensures
            *sources == self.sources,
    {
        &self.sources
    }
}

proof fn lemma_no_duplicate(sources: Seq<SourceEntry>, from: int)
    requires
        0 <= from,
        first_duplicate(sources, from) is None,
    ensures
        forall|i: int, j: int|
            #![trigger sources[i], sources[j]]
            from <= j < sources.len() && 0 <= i < j ==> sources[i].id@ != sources[j].id@,
    decreases sources.len() - from,
{
    if from < sources.len() {
        lemma_no_duplicate(sources, from + 1);
    }
}

/// The order in which sources are given does not matter: the same sources
/// give the same policy, and so the same digest.
pub proof fn law_source_order_is_immaterial(
    left: Seq<SourceEntry>,
    right: Seq<SourceEntry>,
    first: Seq<SourceEntry>,
    second: Seq<SourceEntry>,
)
    requires
        first_duplicate(left, 0) is None,
        forall|source: SourceEntry| #[trigger] left.contains(source) <==> right.contains(source),
        normal_list(left, first),
        normal_list(right, second),
    ensures
        policy_parts(first) == policy_parts(second),
        blake3_digest(policy_encoded(policy_parts(first))) == blake3_digest(
            policy_encoded(policy_parts(second)),
        ),
{
    lemma_no_duplicate(left, 0);
    assert forall|key: Seq<u8>| #[trigger] has_key(first, key) <==> has_key(second, key) by {
        if has_key(left, key) {
            let i = choose|i: int| 0 <= i < left.len() && #[trigger] left[i].key() == key;
            assert(left.contains(left[i]));
            let j = choose|j: int| 0 <= j < right.len() && right[j] == left[i];
            assert(right[j].key() == key);
        }
        if has_key(right, key) {
            let i = choose|i: int| 0 <= i < right.len() && #[trigger] right[i].key() == key;
            assert(right.contains(right[i]));
            assert(left.contains(right[i]));
            let j = choose|j: int| 0 <= j < left.len() && left[j] == right[i];
            assert(left[j].key() == key);
        }
    }
    lemma_ascending_unique(first, second);
    assert forall|i: int| 0 <= i < first.len() implies policy_parts(first)[i]
        == policy_parts(second)[i] by {
        let one = first[i];
        let other = second[i];
        assert(left.contains(one));
        assert(right.contains(other));
        assert(left.contains(other));
        let a = choose|a: int| 0 <= a < left.len() && left[a] == one;
        let b = choose|b: int| 0 <= b < left.len() && left[b] == other;
        let tail = encode_utf8(one.id@);
        let other_tail = encode_utf8(other.id@);
        assert(one.key().skip(2) =~= tail);
        assert(other.key().skip(2) =~= other_tail);
        encode_utf8_decode_utf8(one.id@);
        encode_utf8_decode_utf8(other.id@);
        assert(one.id@ == other.id@);
        if a != b {
            assert(left[a].id@ != left[b].id@);
        }
    }
    assert(policy_parts(first) =~= policy_parts(second));
}

/// How a run ended without an error. Stopping short is told apart from
/// durable cancellation and from storage pressure.
#[derive(Debug)]
pub enum RawHistoryRunOutcome {
    Complete(RawHistoryJob),
    Cancelled(RawHistoryJob),
    Interrupted(RawHistoryJob),
    StorageBackpressured(RawHistoryJob),
}

/// What became of one source.
#[derive(Debug)]
pub enum SourceProblem {
    IncompatibleDescriptor,
    IncompletePlan,
    Error(SourceError),
}

/// Why one source did not serve.
#[derive(Debug)]
pub struct SourceReason {
    pub source_id: String,
    pub problem: SourceProblem,
}

/// Why a segment could not be acquired.
#[derive(Debug)]
pub enum AcquireError {
    Interrupted,
    Resize,
    Sources { reasons: Vec<SourceReason>, retryable: bool },
    Store(HistoryStoreError),
}

/// Errors after which the same source may serve later.
pub open spec fn is_retryable(error: SourceError) -> bool {
    match error {
        SourceError::Disconnected(_) => true,
        SourceError::Unavailable(_) => true,
        SourceError::SegmentUnavailable(_) => true,
        SourceError::Protocol(_) => true,
        _ => false,
    }
}

pub fn source_error_retryable(error: &SourceError) -> (retryable: bool)
    ensures
        retryable == is_retryable(*error),
{
    match error {
        SourceError::Disconnected(_) => true,
        SourceError::Unavailable(_) => true,
        SourceError::SegmentUnavailable(_) => true,
        SourceError::Protocol(_) => true,
        _ => false,
    }
}

/// What a source's error means for the acquisition: cancellation interrupts
/// it, anything else counts against the source.
pub open spec fn is_attempt_error(
    source_id: Seq<char>,
    error: SourceError,
    result: AcquireError,
) -> bool {
    if error is Cancelled {
        result == AcquireError::Interrupted
    } else {
        match result {
            AcquireError::Sources { reasons, retryable } => {
                &&& retryable == is_retryable(error)
                &&& reasons@.len() == 1
                &&& reasons@[0].source_id@ == source_id
                &&& reasons@[0].problem == SourceProblem::Error(error)
            },
            _ => false,
        }
    }
}

pub fn source_attempt_error(source_id: &String, error: SourceError) -> (result: AcquireError)
    ensures
        is_attempt_error(source_id@, error, result),
{
    match error {
        SourceError::Cancelled => AcquireError::Interrupted,
        other => {
            let retryable = source_error_retryable(&other);
            let mut reasons: Vec<SourceReason> = Vec::new();
            reasons.push(
                SourceReason {
                    source_id: source_id.clone(),
                    problem: SourceProblem::Error(other),
                },
            );
            AcquireError::Sources { reasons, retryable }
        },
    }
}

/// The policy that asks for a verification class.
pub open spec fn policy_of(class: VerificationClass) -> VerificationPolicy {
    match class {
        VerificationClass::BestEffort => VerificationPolicy::BestEffort,
        VerificationClass::TrustedDataset => VerificationPolicy::TrustedDataset,
        VerificationClass::Cryptographic => VerificationPolicy::CompleteCryptographic,
    }
}

pub fn verification_policy(class: VerificationClass) -> (policy: VerificationPolicy)
    ensures
        policy == policy_of(class),
{
    match class {
        VerificationClass::BestEffort => VerificationPolicy::BestEffort,
        VerificationClass::TrustedDataset => VerificationPolicy::TrustedDataset,
        VerificationClass::Cryptographic => VerificationPolicy::CompleteCryptographic,
    }
}

/// A policy asks for the class that it was made from.
pub proof fn law_policy_keeps_its_class(class: VerificationClass)
    ensures
        crate::history::source::class_of_policy(policy_of(class)) == class,
{
}

/// The first `blocks` heights of a range, or as many as it has.
pub open spec fn spec_prefix(range: BlockRange, blocks: u64) -> Option<BlockRange> {
    let skipped = if blocks == 0 {
        0
    } else {
        blocks - 1
    };
    let end = range.start.0 + skipped;
    if end > u64::MAX {
        None
    } else if end <= range.end.0 {
        Some(BlockRange { start: range.start, end: BlockNumber(end as u64) })
    } else {
        Some(range)
    }
}

pub fn prefix(range: BlockRange, blocks: u64) -> (outcome: Result<BlockRange, HistoryStoreError>)
    requires
        range.wf(),
    ensures
        outcome == (match spec_prefix(range, blocks) {
            Some(part) => Ok::<BlockRange, HistoryStoreError>(part),
            None => Err(HistoryStoreError::ArithmeticOverflow),
        }),
{
    let skipped: u64 = if blocks == 0 {
        0
    } else {
        blocks - 1
    };
    match range.start.0.checked_add(skipped) {
        Some(end) => {
            if end <= range.end.0 {
                Ok(BlockRange { start: range.start, end: BlockNumber(end) })
            } else {
                Ok(range)
            }
        },
        None => Err(HistoryStoreError::ArithmeticOverflow),
    }
}

/// The name of the segment that a job acquires for a range.
pub open spec fn segment_name(identity: [u8; 32], range: BlockRange) -> Seq<char> {
    "raw-"@ + hex_text(identity@.subrange(0, 8)) + "-"@ + decimal_digits(range.start.0 as nat)
        + "-"@ + decimal_digits(range.end.0 as nat)
}

proof fn lemma_hex_text(bytes: Seq<u8>)
    ensures
        hex_text(bytes).len() == 2 * bytes.len(),
        forall|i: int|
            0 <= i < hex_text(bytes).len() ==> is_portable_char(
                #[trigger] hex_text(bytes)[i],
                true,
                false,
            ),
    decreases bytes.len(),
{
    if bytes.len() > 0 {
        lemma_hex_text(bytes.drop_last());
        let high = bytes.last() as int / 16;
        let low = bytes.last() as int % 16;
        assert(0 <= high < 16);
        assert(0 <= low < 16);
    }
}

/// Ten to the power of `count`.
pub open spec fn power_of_ten(count: nat) -> nat
    decreases count,
{
    if count == 0 {
        1
    } else {
        10 * power_of_ten((count - 1) as nat)
    }
}

proof fn lemma_decimal(value: nat, count: nat)
    requires
        count > 0,
        value < power_of_ten(count),
    ensures
        1 <= decimal_digits(value).len() <= count,
        forall|i: int|
            0 <= i < decimal_digits(value).len() ==> is_portable_char(
                #[trigger] decimal_digits(value)[i],
                true,
                false,
            ),
    decreases count,
{
    if value >= 10 {
        if count == 1 {
            reveal_with_fuel(power_of_ten, 2);
        }
        lemma_decimal(value / 10, (count - 1) as nat);
    }
}

proof fn lemma_number_is_short(value: u64)
    ensures
        1 <= decimal_digits(value as nat).len() <= 20,
        forall|i: int|
            0 <= i < decimal_digits(value as nat).len() ==> is_portable_char(
                #[trigger] decimal_digits(value as nat)[i],
                true,
                false,
            ),
{
    reveal_with_fuel(power_of_ten, 21);
    assert(power_of_ten(20) == 100_000_000_000_000_000_000);
    lemma_decimal(value as nat, 20);
}

/// Every segment name that a job gives is an acceptable identifier.
pub proof fn law_segment_names_are_identifiers(identity: [u8; 32], range: BlockRange)
    ensures
        is_segment_id(segment_name(identity, range)),
{
    let hex = hex_text(identity@.subrange(0, 8));
    let start = decimal_digits(range.start.0 as nat);
    let end = decimal_digits(range.end.0 as nat);
    lemma_hex_text(identity@.subrange(0, 8));
    lemma_number_is_short(range.start.0);
    lemma_number_is_short(range.end.0);
    reveal_strlit("raw-");
    reveal_strlit("-");
    let name = segment_name(identity, range);
    assert(name.len() == 4 + 16 + 1 + start.len() + 1 + end.len());
    assert forall|i: int| 0 <= i < name.len() implies is_portable_char(
        #[trigger] name[i],
        true,
        false,
    ) by {
        if i < 4 {
            assert(name[i] == "raw-"@[i]);
        } else if i < 20 {
            assert(name[i] == hex[i - 4]);
        } else if i == 20 {
            assert(name[i] == "-"@[0]);
        } else if i < 21 + start.len() {
            assert(name[i] == start[i - 21]);
        } else if i == 21 + start.len() {
            assert(name[i] == "-"@[0]);
        } else {
            assert(name[i] == end[i - 22 - start.len()]);
        }
    }
}

pub fn segment_id(identity: &[u8; 32], range: BlockRange) -> (id: SegmentId)
    ensures
        id@ == segment_name(*identity, range),
{
    let mut name: String = "raw-".to_owned();
    let bytes: &[u8] = identity;
    name.append(hex_encode(&bytes[0..8]).as_str());
    name.append("-");
    push_decimal(&mut name, range.start.0);
    name.append("-");
    push_decimal(&mut name, range.end.0);
    proof {
        law_segment_names_are_identifiers(*identity, range);
    }
    match SegmentId::new(name) {
        Ok(id) => id,
        Err(_) => vstd::pervasive::unreached(),
    }
}

} // verus!
