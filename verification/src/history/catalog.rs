//! The raw-history catalog: admission, ownership, locators and deletion.

use crate::history::error::HistoryStoreError;
use crate::history::job::normal_list;
use crate::history::layout::SegmentId;
use crate::history::lifecycle::RawHistoryJob;
use crate::history::locators::{distinct_locators, lead_into};
use crate::history::rows::{SegmentOwnerKind, SegmentRecord};
use crate::order::Keyed;
use crate::primitives::{BlockHash, BlockNumber, ChainId, TransactionHash};
use crate::text::{is_portable, portable};
use vstd::prelude::*;
use vstd::utf8::encode_utf8;

verus! {

/// Version of the catalog's tables.
pub const CATALOG_SCHEMA_VERSION: i64 = 5;

/// Physical bytes that a reservation adds to the catalog itself.
pub const CATALOG_RESERVATION_OVERHEAD_BYTES: u64 = 65536;

/// Independent logical and physical ceilings for retained raw history.
#[derive(Clone, Copy, Debug, PartialEq, Eq, Structural)]
pub struct StorageBudget {
    pub maximum_logical_bytes: u64,
    pub maximum_physical_bytes: u64,
    pub maximum_frame_logical_bytes: u64,
    pub maximum_segment_logical_bytes: u64,
    pub maximum_segment_physical_bytes: u64,
}

impl Default for StorageBudget {
    fn default() -> (budget: StorageBudget)
        ensures
            budget == (StorageBudget {
                maximum_logical_bytes: u64::MAX,
                maximum_physical_bytes: u64::MAX,
                maximum_frame_logical_bytes: 67_108_864,
                maximum_segment_logical_bytes: 4_294_967_296,
                maximum_segment_physical_bytes: 4_294_967_296,
            }),
            budget.wf(),
    {
        StorageBudget {
            maximum_logical_bytes: u64::MAX,
            maximum_physical_bytes: u64::MAX,
            maximum_frame_logical_bytes: 64 * 1024 * 1024,
            maximum_segment_logical_bytes: 4 * 1024 * 1024 * 1024,
            maximum_segment_physical_bytes: 4 * 1024 * 1024 * 1024,
        }
    }
}

impl StorageBudget {
    /// Nothing is zero, and a frame fits a segment, which fits the store.
    pub open spec fn wf(self) -> bool {
        &&& self.maximum_logical_bytes != 0
        &&& self.maximum_physical_bytes != 0
        &&& self.maximum_frame_logical_bytes != 0
        &&& self.maximum_segment_logical_bytes != 0
        &&& self.maximum_segment_physical_bytes != 0
        &&& self.maximum_frame_logical_bytes <= self.maximum_segment_logical_bytes
        &&& self.maximum_segment_logical_bytes <= self.maximum_logical_bytes
        &&& self.maximum_segment_physical_bytes <= self.maximum_physical_bytes
    }

    pub fn validate(self) -> (outcome: Result<StorageBudget, HistoryStoreError>)
        ensures
            outcome == (if self.wf() {
                Ok::<StorageBudget, HistoryStoreError>(self)
            } else {
                Err(
                    HistoryStoreError::InvalidConfig(
                        "history budgets must be non-zero and frame <= segment <= store",
                    ),
                )
            }),
    {
        if self.maximum_logical_bytes == 0 || self.maximum_physical_bytes == 0
            || self.maximum_frame_logical_bytes == 0 || self.maximum_segment_logical_bytes == 0
            || self.maximum_segment_physical_bytes == 0 || self.maximum_frame_logical_bytes
            > self.maximum_segment_logical_bytes || self.maximum_segment_logical_bytes
            > self.maximum_logical_bytes || self.maximum_segment_physical_bytes
            > self.maximum_physical_bytes {
            return Err(
                HistoryStoreError::InvalidConfig(
                    "history budgets must be non-zero and frame <= segment <= store",
                ),
            );
        }
        Ok(self)
    }
}

/// Raw-history store location and admission policy.
#[derive(Debug)]
pub struct HistoryStoreConfig {
    pub root: String,
    pub reader_connections: u32,
    pub budget: StorageBudget,
}

impl HistoryStoreConfig {
    pub fn new(root: String) -> (config: HistoryStoreConfig)
        ensures
            config.root == root,
            config.reader_connections == 4,
            config.budget == (StorageBudget {
                maximum_logical_bytes: u64::MAX,
                maximum_physical_bytes: u64::MAX,
                maximum_frame_logical_bytes: 67_108_864,
                maximum_segment_logical_bytes: 4_294_967_296,
                maximum_segment_physical_bytes: 4_294_967_296,
            }),
    {
        HistoryStoreConfig { root, reader_connections: 4, budget: StorageBudget::default() }
    }

    pub fn with_budget(self, budget: StorageBudget) -> (config: HistoryStoreConfig)
        ensures
            config == (HistoryStoreConfig { budget, ..self }),
    {
        HistoryStoreConfig {
            root: self.root,
            reader_connections: self.reader_connections,
            budget,
        }
    }
}

/// Upper bounds reserved before a partial segment is opened.
#[derive(Clone, Copy, Debug, PartialEq, Eq, Structural)]
pub struct SegmentReservation {
    pub maximum_logical_bytes: u64,
    pub maximum_physical_bytes: u64,
}

impl SegmentReservation {
    pub fn new(maximum_logical_bytes: u64, maximum_physical_bytes: u64) -> (reservation:
        SegmentReservation)
        ensures
            reservation.maximum_logical_bytes == maximum_logical_bytes,
            reservation.maximum_physical_bytes == maximum_physical_bytes,
    {
        SegmentReservation { maximum_logical_bytes, maximum_physical_bytes }
    }
}

/// Durable segment ownership record.
#[derive(Debug)]
pub struct SegmentOwner {
    pub segment_id: SegmentId,
    pub kind: SegmentOwnerKind,
    pub owner_id: String,
    pub created_at_unix_ms: u64,
}

impl SegmentOwner {
    /// The row gives this owner a hold on this segment.
    pub open spec fn holds(
        self,
        segment: Seq<char>,
        kind: SegmentOwnerKind,
        owner: Seq<char>,
    ) -> bool {
        self.segment_id@ == segment && self.kind == kind && self.owner_id@ == owner
    }
}

/// Ownership installed together with a newly closed segment.
#[derive(Debug)]
pub struct SegmentOwnerClaim {
    pub kind: SegmentOwnerKind,
    pub owner_id: String,
}

impl Clone for SegmentOwnerClaim {
    fn clone(&self) -> (copy: SegmentOwnerClaim)
        ensures
            copy == *self,
    {
        SegmentOwnerClaim { kind: self.kind, owner_id: self.owner_id.clone() }
    }
}

impl SegmentOwnerKind {
    /// Place of the kind among claims.
    pub open spec fn spec_place(self) -> u8 {
        match self {
            SegmentOwnerKind::RawHistoryJob => 0u8,
            SegmentOwnerKind::ProcessorJob => 1u8,
            SegmentOwnerKind::OperatorPin => 2u8,
        }
    }
}

/// Claims are ordered by kind, then by owner.
impl Keyed for SegmentOwnerClaim {
    open spec fn key(&self) -> Seq<u8> {
        seq![self.kind.spec_place()] + encode_utf8(self.owner_id@)
    }

    fn key_bytes(&self) -> (bytes: Vec<u8>) {
        let mut bytes: Vec<u8> = Vec::new();
        bytes.push(
            match self.kind {
                SegmentOwnerKind::RawHistoryJob => 0u8,
                SegmentOwnerKind::ProcessorJob => 1u8,
                SegmentOwnerKind::OperatorPin => 2u8,
            },
        );
        crate::bytes::push_bytes(&mut bytes, self.owner_id.as_str().as_bytes());
        assert(bytes@ =~= self.key());
        bytes
    }
}

/// Durable result of a canonical block-hash lookup.
#[derive(Debug)]
pub struct BlockHashLocator {
    pub segment_id: SegmentId,
    pub block_number: BlockNumber,
}

/// Durable result of a canonical transaction-hash lookup.
#[derive(Debug)]
pub struct TransactionLocator {
    pub segment_id: SegmentId,
    pub block_number: BlockNumber,
    pub transaction_index: u32,
}

/// Cleanup and validation work performed before the store becomes readable.
#[derive(Clone, Copy, Debug, PartialEq, Eq, Structural)]
pub struct RecoveryReport {
    pub removed_partial_files: u64,
    pub cleared_reservations: u64,
    pub completed_deletions: u64,
    pub quarantined_closed_files: u64,
    pub quarantined_corrupt_files: u64,
}

impl Default for RecoveryReport {
    fn default() -> (report: RecoveryReport)
        ensures
            report == (RecoveryReport {
                removed_partial_files: 0,
                cleared_reservations: 0,
                completed_deletions: 0,
                quarantined_closed_files: 0,
                quarantined_corrupt_files: 0,
            }),
    {
        RecoveryReport {
            removed_partial_files: 0,
            cleared_reservations: 0,
            completed_deletions: 0,
            quarantined_closed_files: 0,
            quarantined_corrupt_files: 0,
        }
    }
}

/// Observable retained, reserved, quarantined and catalog storage.
#[derive(Clone, Copy, Debug, PartialEq, Eq, Structural)]
pub struct HistoryStoreStats {
    pub closed_segments: u64,
    pub owners: u64,
    pub block_hash_locators: u64,
    pub transaction_locators: u64,
    pub retained_logical_bytes: u64,
    pub retained_segment_physical_bytes: u64,
    pub reserved_logical_bytes: u64,
    pub reserved_physical_bytes: u64,
    pub catalog_physical_bytes: u64,
    pub temporary_physical_bytes: u64,
    pub quarantine_physical_bytes: u64,
    pub total_physical_bytes: u64,
}

/// Bytes that were measured on disk.
#[derive(Clone, Copy, Debug, PartialEq, Eq, Structural)]
pub struct DiskUsage {
    pub catalog_physical_bytes: u64,
    pub temporary_physical_bytes: u64,
    pub quarantine_physical_bytes: u64,
    pub total_physical_bytes: u64,
}

/// One row of the segment table.
#[derive(Debug)]
pub struct StoredSegment {
    pub record: SegmentRecord,
    pub deleting: bool,
}

impl StoredSegment {
    /// The row is a readable segment of this name.
    pub open spec fn is_closed(self, id: Seq<char>) -> bool {
        !self.deleting && self.record.metadata.id@ == id
    }
}

/// One row of the reservation table.
#[derive(Debug)]
pub struct ReservedSegment {
    pub id: SegmentId,
    pub reservation: SegmentReservation,
}

/// One row of the block-hash table.
#[derive(Debug)]
pub struct BlockLocatorRow {
    pub chain_id: ChainId,
    pub hash: BlockHash,
    pub locator: BlockHashLocator,
}

/// One row of the transaction-hash table.
#[derive(Debug)]
pub struct TransactionLocatorRow {
    pub chain_id: ChainId,
    pub hash: TransactionHash,
    pub locator: TransactionLocator,
}

/// Raw-history catalog and owner of immutable segments.
#[derive(Debug)]
pub struct HistoryStore {
    pub budget: StorageBudget,
    pub segments: Vec<StoredSegment>,
    pub reservations: Vec<ReservedSegment>,
    pub owners: Vec<SegmentOwner>,
    pub block_locators: Vec<BlockLocatorRow>,
    pub transaction_locators: Vec<TransactionLocatorRow>,
    pub jobs: Vec<RawHistoryJob>,
}

/// Logical bytes of the retained segments.
pub open spec fn retained_logical(segments: Seq<StoredSegment>) -> int
    decreases segments.len(),
{
    if segments.len() == 0 {
        0
    } else {
        retained_logical(segments.drop_last())
            + segments.last().record.metadata.logical_bytes
    }
}

/// Physical bytes of the retained segments.
pub open spec fn retained_physical(segments: Seq<StoredSegment>) -> int
    decreases segments.len(),
{
    if segments.len() == 0 {
        0
    } else {
        retained_physical(segments.drop_last())
            + segments.last().record.metadata.physical_bytes
    }
}

/// Logical bytes set aside for segments that are being written.
pub open spec fn reserved_logical(reservations: Seq<ReservedSegment>) -> int
    decreases reservations.len(),
{
    if reservations.len() == 0 {
        0
    } else {
        reserved_logical(reservations.drop_last())
            + reservations.last().reservation.maximum_logical_bytes
    }
}

/// Physical bytes set aside for segments that are being written.
pub open spec fn reserved_physical(reservations: Seq<ReservedSegment>) -> int
    decreases reservations.len(),
{
    if reservations.len() == 0 {
        0
    } else {
        reserved_physical(reservations.drop_last())
            + reservations.last().reservation.maximum_physical_bytes
    }
}

/// The first readable segment of this name, from `from` on.
pub open spec fn first_closed(segments: Seq<StoredSegment>, id: Seq<char>, from: int) -> Option<
    int,
>
    decreases segments.len() - from,
{
    if from < 0 || from >= segments.len() {
        None
    } else if segments[from].is_closed(id) {
        Some(from)
    } else {
        first_closed(segments, id, from + 1)
    }
}

/// The first row of this name, from `from` on, readable or not.
pub open spec fn first_segment(segments: Seq<StoredSegment>, id: Seq<char>, from: int) -> Option<
    int,
>
    decreases segments.len() - from,
{
    if from < 0 || from >= segments.len() {
        None
    } else if segments[from].record.metadata.id@ == id {
        Some(from)
    } else {
        first_segment(segments, id, from + 1)
    }
}

/// The first reservation of this name, from `from` on.
pub open spec fn first_reserved(
    reservations: Seq<ReservedSegment>,
    id: Seq<char>,
    from: int,
) -> Option<int>
    decreases reservations.len() - from,
{
    if from < 0 || from >= reservations.len() {
        None
    } else if reservations[from].id@ == id {
        Some(from)
    } else {
        first_reserved(reservations, id, from + 1)
    }
}

/// The first job of this name, from `from` on.
pub open spec fn first_job(jobs: Seq<RawHistoryJob>, id: Seq<char>, from: int) -> Option<int>
    decreases jobs.len() - from,
{
    if from < 0 || from >= jobs.len() {
        None
    } else if jobs[from].id@ == id {
        Some(from)
    } else {
        first_job(jobs, id, from + 1)
    }
}

/// Some row gives this owner a hold on this segment.
pub open spec fn owned_by(
    owners: Seq<SegmentOwner>,
    segment: Seq<char>,
    kind: SegmentOwnerKind,
    owner: Seq<char>,
) -> bool {
    exists|i: int| 0 <= i < owners.len() && (#[trigger] owners[i]).holds(segment, kind, owner)
}

/// How many owners hold a segment.
pub open spec fn owner_count(owners: Seq<SegmentOwner>, segment: Seq<char>) -> int
    decreases owners.len(),
{
    if owners.len() == 0 {
        0
    } else {
        owner_count(owners.drop_last(), segment) + (if owners.last().segment_id@ == segment {
            1int
        } else {
            0int
        })
    }
}

/// An owner identifier: 1 to 128 letters, digits, `-`, `_`, `.` or `:`.
pub open spec fn is_owner_id(text: Seq<char>) -> bool {
    is_portable(text, 128, true, true)
}

/// Refuses an owner identifier that is empty, overlong or not portable.
pub fn validate_owner_id(value: &String) -> (outcome: Result<(), HistoryStoreError>)
    ensures
        outcome == (if is_owner_id(value@) {
            Ok::<(), HistoryStoreError>(())
        } else {
            Err(HistoryStoreError::InvalidOwnerId(*value))
        }),
{
    if !portable(value.as_str(), 128, true, true) {
        return Err(HistoryStoreError::InvalidOwnerId(value.clone()));
    }
    Ok(())
}

/// The first claim whose owner identifier is refused, from `from` on.
pub open spec fn first_bad_owner(claims: Seq<SegmentOwnerClaim>, from: int) -> Option<int>
    decreases claims.len() - from,
{
    if from < 0 || from >= claims.len() {
        None
    } else if !is_owner_id(claims[from].owner_id@) {
        Some(from)
    } else {
        first_bad_owner(claims, from + 1)
    }
}

/// Orders claims by kind and owner, each once, and refuses a bad owner
/// identifier.
pub fn normalize_owner_claims(claims: &Vec<SegmentOwnerClaim>) -> (outcome: Result<
    Vec<SegmentOwnerClaim>,
    HistoryStoreError,
>)
    ensures
        match outcome {
            Ok(normal) => first_bad_owner(claims@, 0) is None && normal_list(claims@, normal@),
            Err(error) => match first_bad_owner(claims@, 0) {
                Some(at) => error == HistoryStoreError::InvalidOwnerId(claims@[at].owner_id),
                None => false,
            },
        },
{
    let mut copies: Vec<SegmentOwnerClaim> = Vec::new();
    let mut index: usize = 0;
    while index < claims.len()
        invariant
            index <= claims@.len(),
            copies@ == claims@.take(index as int),
            first_bad_owner(claims@, 0) == first_bad_owner(claims@, index as int),
        decreases claims@.len() - index,
    {
        validate_owner_id(&claims[index].owner_id)?;
        copies.push(claims[index].clone());
        index += 1;
        assert(copies@ =~= claims@.take(index as int));
    }
    assert(copies@ =~= claims@);
    Ok(crate::order::sort_dedup(copies))
}

impl HistoryStore {
    /// Opens an empty catalog. Refuses a configuration without readers or
    /// with an unusable budget.
    pub fn open(config: &HistoryStoreConfig) -> (outcome: Result<HistoryStore, HistoryStoreError>)
        ensures
            match outcome {
                Ok(store) => {
                    &&& config.reader_connections != 0
                    &&& store.wf()
                    &&& store.budget == config.budget
                    &&& store.segments@.len() == 0
                    &&& store.reservations@.len() == 0
                    &&& store.owners@.len() == 0
                    &&& store.block_locators@.len() == 0
                    &&& store.transaction_locators@.len() == 0
                    &&& store.jobs@.len() == 0
                },
                Err(error) => if config.reader_connections == 0 {
                    error == HistoryStoreError::InvalidConfig(
                        "reader_connections must be greater than zero",
                    )
                } else {
                    !config.budget.wf() && error == HistoryStoreError::InvalidConfig(
                        "history budgets must be non-zero and frame <= segment <= store",
                    )
                },
            },
    {
        if config.reader_connections == 0 {
            return Err(
                HistoryStoreError::InvalidConfig("reader_connections must be greater than zero"),
            );
        }
        let budget: StorageBudget = config.budget.validate()?;
        Ok(
            HistoryStore {
                budget,
                segments: Vec::new(),
                reservations: Vec::new(),
                owners: Vec::new(),
                block_locators: Vec::new(),
                transaction_locators: Vec::new(),
                jobs: Vec::new(),
            },
        )
    }

    /// Names are unique, owners and locators are of segments that exist and
    /// are there once, and requests are canonical.
    pub open spec fn consistent(self) -> bool {
        &&& self.budget.wf()
        &&& forall|i: int, j: int|
            #![trigger self.segments@[i], self.segments@[j]]
            0 <= i < j < self.segments@.len() ==> self.segments@[i].record.metadata.id@
                != self.segments@[j].record.metadata.id@
        &&& forall|i: int|
            0 <= i < self.segments@.len() ==> (
            #[trigger] self.segments@[i]).record.metadata.descriptor.wf()
        &&& forall|i: int, j: int|
            #![trigger self.reservations@[i], self.reservations@[j]]
            0 <= i < j < self.reservations@.len() ==> self.reservations@[i].id@
                != self.reservations@[j].id@
        &&& forall|i: int|
            0 <= i < self.owners@.len() ==> first_segment(
                self.segments@,
                (#[trigger] self.owners@[i]).segment_id@,
                0,
            ) is Some
        &&& forall|i: int, j: int|
            #![trigger self.owners@[i], self.owners@[j]]
            0 <= i < j < self.owners@.len() ==> !self.owners@[i].holds(
                self.owners@[j].segment_id@,
                self.owners@[j].kind,
                self.owners@[j].owner_id@,
            )
        &&& lead_into(self.block_locators@, self.segments@)
        &&& distinct_locators(self.block_locators@)
        &&& lead_into(self.transaction_locators@, self.segments@)
        &&& distinct_locators(self.transaction_locators@)
        &&& forall|i: int, j: int|
            #![trigger self.jobs@[i], self.jobs@[j]]
            0 <= i < j < self.jobs@.len() ==> self.jobs@[i].id@ != self.jobs@[j].id@
        &&& forall|i: int| 0 <= i < self.jobs@.len() ==> (#[trigger] self.jobs@[i]).wf()
    }

    /// What is retained and reserved stays within the budget.
    pub open spec fn within_budget(self) -> bool {
        &&& retained_logical(self.segments@) + reserved_logical(self.reservations@)
            <= self.budget.maximum_logical_bytes
        &&& reserved_physical(self.reservations@) <= self.budget.maximum_physical_bytes
    }

    /// The tables are consistent and within the budget.
    pub open spec fn wf(self) -> bool {
        &&& self.consistent()
        &&& self.within_budget()
    }

    /// A reservation that a segment may ask for.
    pub open spec fn reservation_ok(self, reservation: SegmentReservation) -> bool {
        &&& reservation.maximum_logical_bytes != 0
        &&& reservation.maximum_physical_bytes != 0
        &&& reservation.maximum_logical_bytes <= self.budget.maximum_segment_logical_bytes
        &&& reservation.maximum_physical_bytes <= self.budget.maximum_segment_physical_bytes
    }

    pub fn validate_reservation(&self, reservation: SegmentReservation) -> (outcome: Result<
        (),
        HistoryStoreError,
    >)
        ensures
            outcome == (if self.reservation_ok(reservation) {
                Ok::<(), HistoryStoreError>(())
            } else {
                Err(HistoryStoreError::InvalidReservation)
            }),
    {
        if reservation.maximum_logical_bytes == 0 || reservation.maximum_physical_bytes == 0
            || reservation.maximum_logical_bytes > self.budget.maximum_segment_logical_bytes
            || reservation.maximum_physical_bytes > self.budget.maximum_segment_physical_bytes {
            return Err(HistoryStoreError::InvalidReservation);
        }
        Ok(())
    }
}

} // verus!
