//! What a chunk of a plan tells of the projection that serves it.

use crate::history::job::{
    address_bytes, hash_bytes, pair_views, plain_addresses, plain_hashes, plain_topics,
    topic_parts,
};
use crate::primitives::{Address, BlockNumber, BlockRange, Capability, TransactionHash};
use crate::request::{
    DataRequest, FilterScope, FilterSet, LogFieldSet, SourceError, TopicFilter,
};
use crate::xatu::generic::GenericProjectionKind;
use vstd::prelude::*;

verus! {

/// The projection that serves a request.
#[derive(Clone, Copy, Debug, PartialEq, Eq, Structural)]
pub enum ProjectionMode {
    Blobs,
    Headers,
    Transactions,
    Logs,
}

impl ProjectionMode {
    pub open spec fn spec_tag(self) -> u32 {
        match self {
            ProjectionMode::Blobs => 0,
            ProjectionMode::Headers => 1,
            ProjectionMode::Transactions => 2,
            ProjectionMode::Logs => 3,
        }
    }

    fn tag(self) -> (tag: u32)
        ensures
            tag == self.spec_tag(),
    {
        match self {
            ProjectionMode::Blobs => 0,
            ProjectionMode::Headers => 1,
            ProjectionMode::Transactions => 2,
            ProjectionMode::Logs => 3,
        }
    }

    pub open spec fn spec_from_tag(tag: u32) -> Option<ProjectionMode> {
        if tag == 0 {
            Some(ProjectionMode::Blobs)
        } else if tag == 1 {
            Some(ProjectionMode::Headers)
        } else if tag == 2 {
            Some(ProjectionMode::Transactions)
        } else if tag == 3 {
            Some(ProjectionMode::Logs)
        } else {
            None
        }
    }

    fn from_tag(tag: u32) -> (mode: Option<ProjectionMode>)
        ensures
            mode == ProjectionMode::spec_from_tag(tag),
    {
        if tag == 0 {
            Some(ProjectionMode::Blobs)
        } else if tag == 1 {
            Some(ProjectionMode::Headers)
        } else if tag == 2 {
            Some(ProjectionMode::Transactions)
        } else if tag == 3 {
            Some(ProjectionMode::Logs)
        } else {
            None
        }
    }

    /// The kind of a projection other than of blobs.
    pub open spec fn spec_generic_kind(self) -> Option<GenericProjectionKind> {
        match self {
            ProjectionMode::Blobs => None,
            ProjectionMode::Headers => Some(GenericProjectionKind::Headers),
            ProjectionMode::Transactions => Some(GenericProjectionKind::Transactions),
            ProjectionMode::Logs => Some(GenericProjectionKind::Logs),
        }
    }

    pub fn generic_kind(self) -> (kind: Option<GenericProjectionKind>)
        ensures
            kind == self.spec_generic_kind(),
    {
        match self {
            ProjectionMode::Blobs => None,
            ProjectionMode::Headers => Some(GenericProjectionKind::Headers),
            ProjectionMode::Transactions => Some(GenericProjectionKind::Transactions),
            ProjectionMode::Logs => Some(GenericProjectionKind::Logs),
        }
    }
}

/// The version of chunk identities.
pub const IDENTITY_VERSION: u8 = 2;

/// What a chunk tells of its projection.
#[derive(Debug)]
pub struct PartitionIdentity {
    pub version: u8,
    pub mode: ProjectionMode,
    pub range: BlockRange,
    pub filters: FilterSet,
    pub log_fields: LogFieldSet,
    pub include_header: bool,
}

/// A chunk's identity in plain parts.
pub struct IdentityParts {
    pub version: u8,
    pub mode: u32,
    pub range: (u64, u64),
    pub scope_range: Option<(u64, u64)>,
    pub addresses: Seq<[u8; 20]>,
    pub topics: Seq<(u8, Seq<[u8; 32]>)>,
    pub transaction_types: Seq<u8>,
    pub transaction_hashes: Seq<[u8; 32]>,
    pub scope_parties: (Seq<[u8; 20]>, Seq<[u8; 20]>),
    pub parties: (Seq<[u8; 20]>, Seq<[u8; 20]>),
    pub log_bits: u8,
    pub include_header: bool,
}

/// The parts that are read back, as plain lists.
#[derive(Debug)]
pub struct DecodedIdentity {
    pub version: u8,
    pub mode: u32,
    pub range: (u64, u64),
    pub scope_range: Option<(u64, u64)>,
    pub addresses: Vec<[u8; 20]>,
    pub topics: Vec<(u8, Vec<[u8; 32]>)>,
    pub transaction_types: Vec<u8>,
    pub transaction_hashes: Vec<[u8; 32]>,
    pub scope_parties: (Vec<[u8; 20]>, Vec<[u8; 20]>),
    pub parties: (Vec<[u8; 20]>, Vec<[u8; 20]>),
    pub log_bits: u8,
    pub include_header: bool,
}

impl View for DecodedIdentity {
    type V = IdentityParts;

    open spec fn view(&self) -> IdentityParts {
        IdentityParts {
            version: self.version,
            mode: self.mode,
            range: self.range,
            scope_range: self.scope_range,
            addresses: self.addresses@,
            topics: pair_views(self.topics@),
            transaction_types: self.transaction_types@,
            transaction_hashes: self.transaction_hashes@,
            scope_parties: (self.scope_parties.0@, self.scope_parties.1@),
            parties: (self.parties.0@, self.parties.1@),
            log_bits: self.log_bits,
            include_header: self.include_header,
        }
    }
}

/// The bytes that postcard writes for a chunk's identity.
pub uninterp spec fn identity_encoded(parts: IdentityParts) -> Seq<u8>;

/// The identity that postcard reads from the start of these bytes, or the
/// words of the error.
pub uninterp spec fn identity_decoded(bytes: Seq<u8>) -> Result<IdentityParts, Seq<char>>;

/// Calls `postcard::to_allocvec` on the parts of an identity, in the order of
/// its fields. Claims that the bytes are a function of those parts, that there
/// are always bytes, and that `from_bytes` reads the same parts back from
/// them.
#[verifier::external_body]
pub(crate) fn encode_identity(parts: &DecodedIdentity) -> (bytes: Vec<u8>)
    ensures
        bytes@ == identity_encoded(parts@),
        identity_decoded(bytes@) == (Ok::<IdentityParts, Seq<char>>(parts@)),
{
    postcard::to_allocvec(
        &(
            (parts.version, parts.mode, parts.range),
            (parts.scope_range, &parts.addresses, &parts.topics, &parts.transaction_types),
            (&parts.transaction_hashes, &parts.scope_parties, &parts.parties),
            (parts.log_bits, parts.include_header),
        ),
    ).expect("lists of plain values always encode")
}

/// Calls `postcard::from_bytes` for the parts of an identity. Claims that what
/// it reads, or else the words of its error, is a function of the bytes.
#[verifier::external_body]
pub(crate) fn decode_identity(bytes: &[u8]) -> (identity: Result<DecodedIdentity, String>)
    ensures
        match identity {
            Ok(parts) => identity_decoded(bytes@) == Ok::<IdentityParts, Seq<char>>(parts@),
            Err(words) => identity_decoded(bytes@) == Err::<IdentityParts, Seq<char>>(words@),
        },
{
    let ((version, mode, range), (scope_range, addresses, topics, transaction_types), (
        transaction_hashes,
        scope_parties,
        parties,
    ), (log_bits, include_header)) = postcard::from_bytes(bytes).map_err(|error| error.to_string())?;
    Ok(DecodedIdentity { version, mode, range, scope_range, addresses, topics, transaction_types,
        transaction_hashes, scope_parties, parties, log_bits, include_header })
}

/// A range by its ends.
pub open spec fn ends_of(range: Option<BlockRange>) -> Option<(u64, u64)> {
    match range {
        Some(range) => Some((range.start.0, range.end.0)),
        None => None,
    }
}

/// The identity of a chunk, in plain parts.
pub open spec fn parts_of(
    version: u8,
    mode: ProjectionMode,
    range: BlockRange,
    filters: FilterSet,
    log_fields: LogFieldSet,
    include_header: bool,
) -> IdentityParts {
    IdentityParts {
        version,
        mode: mode.spec_tag(),
        range: (range.start.0, range.end.0),
        scope_range: ends_of(filters.scope.block_range),
        addresses: address_bytes(filters.scope.addresses@),
        topics: topic_parts(filters.scope.topics@),
        transaction_types: filters.scope.transaction_types@,
        transaction_hashes: hash_bytes(filters.scope.transaction_hashes@),
        scope_parties: (
            address_bytes(filters.scope.senders@),
            address_bytes(filters.scope.recipients@),
        ),
        parties: (address_bytes(filters.senders@), address_bytes(filters.recipients@)),
        log_bits: log_fields.bits,
        include_header,
    }
}

impl PartitionIdentity {
    /// The identity in plain parts.
    pub open spec fn parts(self) -> IdentityParts {
        parts_of(
            self.version,
            self.mode,
            self.range,
            self.filters,
            self.log_fields,
            self.include_header,
        )
    }

    pub fn encode(&self) -> (bytes: Vec<u8>)
        ensures
            bytes@ == identity_encoded(self.parts()),
            identity_decoded(bytes@) == Ok::<IdentityParts, Seq<char>>(self.parts()),
    {
        let decoded: DecodedIdentity = DecodedIdentity {
            version: self.version,
            mode: self.mode.tag(),
            range: (self.range.start.0, self.range.end.0),
            scope_range: match self.filters.scope.block_range {
                Some(range) => Some((range.start.0, range.end.0)),
                None => None,
            },
            addresses: plain_addresses(&self.filters.scope.addresses),
            topics: plain_topics(&self.filters.scope.topics),
            transaction_types: crate::request::clone_list(&self.filters.scope.transaction_types),
            transaction_hashes: plain_hashes(&self.filters.scope.transaction_hashes),
            scope_parties: (
                plain_addresses(&self.filters.scope.senders),
                plain_addresses(&self.filters.scope.recipients),
            ),
            parties: (
                plain_addresses(&self.filters.senders),
                plain_addresses(&self.filters.recipients),
            ),
            log_bits: self.log_fields.bits,
            include_header: self.include_header,
        };
        assert(decoded@ == self.parts());
        encode_identity(&decoded)
    }
}

/// The identity of a chunk that serves a request.
pub open spec fn request_parts(
    mode: ProjectionMode,
    range: BlockRange,
    request: DataRequest,
) -> IdentityParts {
    parts_of(
        IDENTITY_VERSION,
        mode,
        range,
        request.filters,
        request.log_fields,
        request.required.has(Capability::Header),
    )
}

/// Filters that hold the same lists have the same parts.
pub proof fn lemma_alike_parts(
    version: u8,
    mode: ProjectionMode,
    range: BlockRange,
    left: FilterSet,
    right: FilterSet,
    log_fields: LogFieldSet,
    include_header: bool,
)
    requires
        left.alike(right),
    ensures
        parts_of(version, mode, range, left, log_fields, include_header) == parts_of(
            version,
            mode,
            range,
            right,
            log_fields,
            include_header,
        ),
{
    assert(topic_parts(left.scope.topics@) =~= topic_parts(right.scope.topics@)) by {
        assert forall|i: int| 0 <= i < left.scope.topics@.len() implies topic_parts(
            left.scope.topics@,
        )[i] == topic_parts(right.scope.topics@)[i] by {
            assert(crate::request::topic_alike(left.scope.topics@[i], right.scope.topics@[i]));
        }
    }
}

/// Writes the identity of a chunk that serves a request.
pub fn encode_partition(mode: ProjectionMode, range: BlockRange, request: &DataRequest) -> (bytes:
    Vec<u8>)
    ensures
        bytes@ == identity_encoded(request_parts(mode, range, *request)),
        identity_decoded(bytes@) == Ok::<IdentityParts, Seq<char>>(
            request_parts(mode, range, *request),
        ),
{
    let identity: PartitionIdentity = PartitionIdentity {
        version: IDENTITY_VERSION,
        mode,
        range,
        filters: request.filters.clone(),
        log_fields: request.log_fields,
        include_header: request.required.contains(Capability::Header),
    };
    proof {
        lemma_alike_parts(
            IDENTITY_VERSION,
            mode,
            range,
            identity.filters,
            request.filters,
            request.log_fields,
            identity.include_header,
        );
    }
    identity.encode()
}

/// Parts that a chunk's identity can be read from.
pub open spec fn are_valid(parts: IdentityParts) -> bool {
    &&& ProjectionMode::spec_from_tag(parts.mode) is Some
    &&& parts.range.0 <= parts.range.1
    &&& parts.scope_range matches Some(ends) ==> ends.0 <= ends.1
}

fn read_addresses(plain: &Vec<[u8; 20]>) -> (values: Vec<Address>)
    ensures
        address_bytes(values@) == plain@,
{
    let mut values: Vec<Address> = Vec::new();
    let mut index: usize = 0;
    while index < plain.len()
        invariant
            index <= plain@.len(),
            values@.len() == index,
            forall|i: int| 0 <= i < index ==> (#[trigger] values@[i]).0 == plain@[i],
        decreases plain@.len() - index,
    {
        values.push(Address(plain[index]));
        index += 1;
    }
    assert(address_bytes(values@) =~= plain@);
    values
}

fn read_hashes(plain: &Vec<[u8; 32]>) -> (values: Vec<TransactionHash>)
    ensures
        hash_bytes(values@) == plain@,
{
    let mut values: Vec<TransactionHash> = Vec::new();
    let mut index: usize = 0;
    while index < plain.len()
        invariant
            index <= plain@.len(),
            values@.len() == index,
            forall|i: int| 0 <= i < index ==> (#[trigger] values@[i]).0 == plain@[i],
        decreases plain@.len() - index,
    {
        values.push(TransactionHash(plain[index]));
        index += 1;
    }
    assert(hash_bytes(values@) =~= plain@);
    values
}

fn read_topics(plain: &Vec<(u8, Vec<[u8; 32]>)>) -> (values: Vec<TopicFilter>)
    ensures
        topic_parts(values@) == pair_views(plain@),
{
    let mut values: Vec<TopicFilter> = Vec::new();
    let mut index: usize = 0;
    while index < plain.len()
        invariant
            index <= plain@.len(),
            values@.len() == index,
            forall|i: int|
                0 <= i < index ==> (#[trigger] values@[i]).position == plain@[i].0
                    && values@[i].alternatives@ == plain@[i].1@,
        decreases plain@.len() - index,
    {
        values.push(
            TopicFilter {
                position: plain[index].0,
                alternatives: crate::request::clone_list(&plain[index].1),
            },
        );
        index += 1;
    }
    assert(topic_parts(values@) =~= pair_views(plain@));
    values
}

/// The words for parts that are well formed and mean nothing.
pub const MEANINGLESS_PARTS: &'static str = "Serde Deserialization Error";

/// What a chunk's bytes tell of its projection.
pub open spec fn is_identity(bytes: Seq<u8>, outcome: Result<PartitionIdentity, SourceError>) -> bool {
    match identity_decoded(bytes) {
        Ok(parts) => if !are_valid(parts) {
            outcome matches Err(SourceError::InvalidIdentity(words)) && words@
                == MEANINGLESS_PARTS@
        } else if parts.version != IDENTITY_VERSION {
            outcome == Err::<PartitionIdentity, SourceError>(
                SourceError::UnsupportedIdentityVersion(parts.version),
            )
        } else {
            outcome matches Ok(identity) && identity.parts() == parts && identity.range.wf()
        },
        Err(words) => outcome matches Err(SourceError::InvalidIdentity(text)) && text@ == words,
    }
}

fn meaningless() -> (error: SourceError)
    ensures
        error matches SourceError::InvalidIdentity(words) && words@ == MEANINGLESS_PARTS@,
{
    SourceError::InvalidIdentity(MEANINGLESS_PARTS.to_owned())
}

/// Reads what a chunk tells of its projection.
pub fn decode_partition(bytes: &[u8]) -> (outcome: Result<PartitionIdentity, SourceError>)
    ensures
        is_identity(bytes@, outcome),
{
    let decoded: DecodedIdentity = match decode_identity(bytes) {
        Ok(decoded) => decoded,
        Err(words) => {
            return Err(SourceError::InvalidIdentity(words));
        },
    };
    let mode: ProjectionMode = match ProjectionMode::from_tag(decoded.mode) {
        Some(mode) => mode,
        None => {
            return Err(meaningless());
        },
    };
    if decoded.range.0 > decoded.range.1 {
        return Err(meaningless());
    }
    let block_range: Option<BlockRange> = match decoded.scope_range {
        Some((start, end)) => {
            if start > end {
                return Err(meaningless());
            }
            Some(BlockRange { start: BlockNumber(start), end: BlockNumber(end) })
        },
        None => None,
    };
    if decoded.version != IDENTITY_VERSION {
        return Err(SourceError::UnsupportedIdentityVersion(decoded.version));
    }
    let identity: PartitionIdentity = PartitionIdentity {
        version: decoded.version,
        mode,
        range: BlockRange {
            start: BlockNumber(decoded.range.0),
            end: BlockNumber(decoded.range.1),
        },
        filters: FilterSet {
            scope: FilterScope {
                block_range,
                addresses: read_addresses(&decoded.addresses),
                topics: read_topics(&decoded.topics),
                transaction_types: decoded.transaction_types,
                transaction_hashes: read_hashes(&decoded.transaction_hashes),
                senders: read_addresses(&decoded.scope_parties.0),
                recipients: read_addresses(&decoded.scope_parties.1),
            },
            senders: read_addresses(&decoded.parties.0),
            recipients: read_addresses(&decoded.parties.1),
        },
        log_fields: LogFieldSet { bits: decoded.log_bits },
        include_header: decoded.include_header,
    };
    assert(identity.parts() == decoded@);
    Ok(identity)
}

/// A chunk's identity reads back as it was written.
pub proof fn law_identity_round_trip(
    mode: ProjectionMode,
    range: BlockRange,
    request: DataRequest,
    bytes: Seq<u8>,
    outcome: Result<PartitionIdentity, SourceError>,
)
    requires
        range.wf(),
        request.filters.scope.block_range matches Some(scope) ==> scope.wf(),
        identity_decoded(bytes) == Ok::<IdentityParts, Seq<char>>(
            request_parts(mode, range, request),
        ),
        is_identity(bytes, outcome),
    ensures
        outcome matches Ok(identity) && identity.mode == mode && identity.range == range
            && identity.parts() == request_parts(mode, range, request),
{
}

} // verus!
