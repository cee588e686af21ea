//! Deterministic object resolution and required schemas.

use crate::order::Keyed;
use crate::primitives::BlockRange;
use crate::stable::{reversed, stable_order, stable_sort};
use crate::text::{
    clone_texts, decimal_digits, is_alphanumeric, joined, pieces, push_decimal, same_text, split, texts,
};
use crate::xatu::dates::{law_next_is_one_day_later, law_ordinal_orders_dates, XatuDate};
use crate::xatu::error::XatuError;
use vstd::prelude::*;
use vstd::utf8::encode_utf8;

verus! {

pub const DEFAULT_XATU_BASE_URL: &'static str =
    "https://data.ethpandaops.io/xatu/mainnet/databases/default/";

pub const XATU_DATA_ORIGIN: &'static str = "https://data.ethpandaops.io/xatu/";

/// Tables of the public dataset.
#[derive(Clone, Copy, Debug, PartialEq, Eq, PartialOrd, Ord, Structural)]
pub enum XatuTable {
    CanonicalExecutionBlock,
    CanonicalExecutionTransaction,
    CanonicalExecutionLogs,
    CanonicalBeaconBlock,
    CanonicalBeaconBlockExecutionTransaction,
    CanonicalBeaconBlockWithdrawal,
}

/// How the objects of a table are partitioned.
#[derive(Clone, Copy, Debug, PartialEq, Eq, Structural)]
pub enum PartitionKind {
    BlockChunk1000,
    Daily,
}

impl XatuTable {
    pub open spec fn spec_name(self) -> &'static str {
        match self {
            XatuTable::CanonicalExecutionBlock => "canonical_execution_block",
            XatuTable::CanonicalExecutionTransaction => "canonical_execution_transaction",
            XatuTable::CanonicalExecutionLogs => "canonical_execution_logs",
            XatuTable::CanonicalBeaconBlock => "canonical_beacon_block",
            XatuTable::CanonicalBeaconBlockExecutionTransaction => "canonical_beacon_block_execution_transaction",
            XatuTable::CanonicalBeaconBlockWithdrawal => "canonical_beacon_block_withdrawal",
        }
    }

    pub fn name(self) -> (name: &'static str)
        ensures
            name == self.spec_name(),
    {
        match self {
            XatuTable::CanonicalExecutionBlock => "canonical_execution_block",
            XatuTable::CanonicalExecutionTransaction => "canonical_execution_transaction",
            XatuTable::CanonicalExecutionLogs => "canonical_execution_logs",
            XatuTable::CanonicalBeaconBlock => "canonical_beacon_block",
            XatuTable::CanonicalBeaconBlockExecutionTransaction => "canonical_beacon_block_execution_transaction",
            XatuTable::CanonicalBeaconBlockWithdrawal => "canonical_beacon_block_withdrawal",
        }
    }

    /// The place of the table among the tables.
    pub open spec fn spec_rank(self) -> u8 {
        match self {
            XatuTable::CanonicalExecutionBlock => 0,
            XatuTable::CanonicalExecutionTransaction => 1,
            XatuTable::CanonicalExecutionLogs => 2,
            XatuTable::CanonicalBeaconBlock => 3,
            XatuTable::CanonicalBeaconBlockExecutionTransaction => 4,
            XatuTable::CanonicalBeaconBlockWithdrawal => 5,
        }
    }

    pub fn rank(self) -> (rank: u8)
        ensures
            rank == self.spec_rank(),
    {
        match self {
            XatuTable::CanonicalExecutionBlock => 0,
            XatuTable::CanonicalExecutionTransaction => 1,
            XatuTable::CanonicalExecutionLogs => 2,
            XatuTable::CanonicalBeaconBlock => 3,
            XatuTable::CanonicalBeaconBlockExecutionTransaction => 4,
            XatuTable::CanonicalBeaconBlockWithdrawal => 5,
        }
    }

    pub open spec fn spec_partition_kind(self) -> PartitionKind {
        match self {
            XatuTable::CanonicalExecutionBlock => PartitionKind::BlockChunk1000,
            XatuTable::CanonicalExecutionTransaction => PartitionKind::BlockChunk1000,
            XatuTable::CanonicalExecutionLogs => PartitionKind::BlockChunk1000,
            _ => PartitionKind::Daily,
        }
    }

    pub fn partition_kind(self) -> (kind: PartitionKind)
        ensures
            kind == self.spec_partition_kind(),
    {
        match self {
            XatuTable::CanonicalExecutionBlock => PartitionKind::BlockChunk1000,
            XatuTable::CanonicalExecutionTransaction => PartitionKind::BlockChunk1000,
            XatuTable::CanonicalExecutionLogs => PartitionKind::BlockChunk1000,
            _ => PartitionKind::Daily,
        }
    }

    /// Columns that every object of the table has.
    pub open spec fn spec_required_columns(self) -> Seq<&'static str> {
        match self {
            XatuTable::CanonicalExecutionBlock => seq![
                "block_date_time",
                "block_number",
                "block_hash",
                "gas_used",
                "extra_data",
                "base_fee_per_gas",
                "meta_network_name",
            ],
            XatuTable::CanonicalExecutionTransaction => seq![
                "block_number",
                "transaction_index",
                "transaction_hash",
                "from_address",
                "to_address",
                "value",
                "gas_used",
                "gas_price",
                "transaction_type",
                "success",
                "meta_network_name",
            ],
            XatuTable::CanonicalExecutionLogs => seq![
                "block_number",
                "transaction_index",
                "transaction_hash",
                "log_index",
                "address",
                "topic0",
                "topic1",
                "topic2",
                "topic3",
                "data",
                "meta_network_name",
            ],
            XatuTable::CanonicalBeaconBlock => seq![
                "slot",
                "slot_start_date_time",
                "block_root",
                "block_version",
                "block_total_bytes",
                "execution_payload_block_hash",
                "execution_payload_block_number",
                "execution_payload_base_fee_per_gas",
                "execution_payload_blob_gas_used",
                "execution_payload_excess_blob_gas",
                "execution_payload_gas_limit",
                "execution_payload_gas_used",
                "execution_payload_parent_hash",
                "execution_payload_transactions_count",
                "execution_payload_transactions_total_bytes",
                "meta_network_name",
            ],
            XatuTable::CanonicalBeaconBlockExecutionTransaction => seq![
                "slot",
                "slot_start_date_time",
                "block_root",
                "position",
                "hash",
                "from",
                "to",
                "gas_price",
                "gas",
                "type",
                "size",
                "blob_gas",
                "blob_gas_fee_cap",
                "blob_hashes",
                "meta_network_name",
            ],
            XatuTable::CanonicalBeaconBlockWithdrawal => seq![
                "slot",
                "slot_start_date_time",
                "block_root",
                "block_version",
                "withdrawal_index",
                "withdrawal_validator_index",
                "withdrawal_address",
                "withdrawal_amount",
                "meta_network_name",
            ],
        }
    }

    pub fn required_columns(self) -> (columns: &'static [&'static str])
        ensures
            columns@ == self.spec_required_columns(),
    {
        let columns: &'static [&'static str] = match self {
            XatuTable::CanonicalExecutionBlock => &[
                "block_date_time",
                "block_number",
                "block_hash",
                "gas_used",
                "extra_data",
                "base_fee_per_gas",
                "meta_network_name",
            ],
            XatuTable::CanonicalExecutionTransaction => &[
                "block_number",
                "transaction_index",
                "transaction_hash",
                "from_address",
                "to_address",
                "value",
                "gas_used",
                "gas_price",
                "transaction_type",
                "success",
                "meta_network_name",
            ],
            XatuTable::CanonicalExecutionLogs => &[
                "block_number",
                "transaction_index",
                "transaction_hash",
                "log_index",
                "address",
                "topic0",
                "topic1",
                "topic2",
                "topic3",
                "data",
                "meta_network_name",
            ],
            XatuTable::CanonicalBeaconBlock => &[
                "slot",
                "slot_start_date_time",
                "block_root",
                "block_version",
                "block_total_bytes",
                "execution_payload_block_hash",
                "execution_payload_block_number",
                "execution_payload_base_fee_per_gas",
                "execution_payload_blob_gas_used",
                "execution_payload_excess_blob_gas",
                "execution_payload_gas_limit",
                "execution_payload_gas_used",
                "execution_payload_parent_hash",
                "execution_payload_transactions_count",
                "execution_payload_transactions_total_bytes",
                "meta_network_name",
            ],
            XatuTable::CanonicalBeaconBlockExecutionTransaction => &[
                "slot",
                "slot_start_date_time",
                "block_root",
                "position",
                "hash",
                "from",
                "to",
                "gas_price",
                "gas",
                "type",
                "size",
                "blob_gas",
                "blob_gas_fee_cap",
                "blob_hashes",
                "meta_network_name",
            ],
            XatuTable::CanonicalBeaconBlockWithdrawal => &[
                "slot",
                "slot_start_date_time",
                "block_root",
                "block_version",
                "withdrawal_index",
                "withdrawal_validator_index",
                "withdrawal_address",
                "withdrawal_amount",
                "meta_network_name",
            ],
        };
        assert(columns@ =~= self.spec_required_columns());
        columns
    }
}

/// Where a network's public data lies.
#[derive(Debug)]
pub struct XatuCatalogConfig {
    pub base_url: String,
    pub network: String,
}

/// What `url::Url::parse` makes of a text: an address, or the words of the
/// error.
pub uninterp spec fn url_parsed(text: Seq<char>) -> Result<Seq<char>, Seq<char>>;

/// What `url::Url::join` makes of a base and a reference: an address, or the
/// words of the error.
pub uninterp spec fn url_joined(base: Seq<char>, reference: Seq<char>) -> Result<
    Seq<char>,
    Seq<char>,
>;

/// Calls `url::Url::parse`. Claims that the address, or else the words of the
/// error, depend on the text alone.
#[verifier::external_body]
pub(crate) fn parse_url(text: &str) -> (outcome: Result<String, String>)
    ensures
        match outcome {
            Ok(url) => url_parsed(text@) == Ok::<Seq<char>, Seq<char>>(url@),
            Err(words) => url_parsed(text@) == Err::<Seq<char>, Seq<char>>(words@),
        },
{
    match url::Url::parse(text) {
        Ok(url) => Ok(String::from(url)),
        Err(error) => Err(error.to_string()),
    }
}

/// Calls `url::Url::join` on the parsed base. Claims that the address, or else
/// the words of the error, depend on the base and the reference alone.
#[verifier::external_body]
pub(crate) fn join_url(base: &str, reference: &str) -> (outcome: Result<String, String>)
    ensures
        match outcome {
            Ok(url) => url_joined(base@, reference@) == Ok::<Seq<char>, Seq<char>>(url@),
            Err(words) => url_joined(base@, reference@) == Err::<Seq<char>, Seq<char>>(words@),
        },
{
    let joined = match url::Url::parse(base) {
        Ok(url) => url.join(reference),
        Err(error) => Err(error),
    };
    match joined {
        Ok(url) => Ok(String::from(url)),
        Err(error) => Err(error.to_string()),
    }
}

/// Letters, digits, hyphens and underscores, and at least one.
pub open spec fn is_network_name(name: Seq<char>) -> bool {
    &&& name.len() > 0
    &&& forall|i: int|
        0 <= i < name.len() ==> is_alphanumeric(#[trigger] name[i]) || name[i] == '-' || name[i]
            == '_'
}

/// The location of a network's public data.
pub open spec fn public_location(network: Seq<char>) -> Seq<char> {
    XATU_DATA_ORIGIN@ + network + "/databases/default/"@
}

fn network_name_ok(name: &str) -> (valid: bool)
    ensures
        valid == is_network_name(name@),
{
    let length: usize = name.unicode_len();
    let mut index: usize = 0;
    while index < length
        invariant
            index <= length,
            length == name@.len(),
            forall|i: int|
                0 <= i < index ==> is_alphanumeric(#[trigger] name@[i]) || name@[i] == '-'
                    || name@[i] == '_',
        decreases length - index,
    {
        let symbol: char = name.get_char(index);
        let letter = ('a' <= symbol && symbol <= 'z') || ('A' <= symbol && symbol <= 'Z');
        let digit = '0' <= symbol && symbol <= '9';
        if !letter && !digit && symbol != '-' && symbol != '_' {
            return false;
        }
        index += 1;
    }
    length > 0
}

impl Default for XatuCatalogConfig {
    fn default() -> (config: XatuCatalogConfig)
        ensures
            config.base_url@ == DEFAULT_XATU_BASE_URL@,
            config.network@ == "mainnet"@,
    {
        XatuCatalogConfig {
            base_url: DEFAULT_XATU_BASE_URL.to_owned(),
            network: "mainnet".to_owned(),
        }
    }
}

impl XatuCatalogConfig {
    /// Builds the public catalog location for a portable network name.
    pub fn public(network: String) -> (outcome: Result<XatuCatalogConfig, XatuError>)
        ensures
            if !is_network_name(network@) {
                outcome == Err::<XatuCatalogConfig, XatuError>(XatuError::Network(network))
            } else {
                match (outcome, url_parsed(public_location(network@))) {
                    (Ok(config), Ok(url)) => config.base_url@ == url && config.network == network,
                    (Err(error), Err(words)) => error.is_url_error(words),
                    _ => false,
                }
            },
    {
        if !network_name_ok(network.as_str()) {
            return Err(XatuError::Network(network));
        }
        let mut location: String = joined(XATU_DATA_ORIGIN, network.as_str());
        location.append("/databases/default/");
        match parse_url(location.as_str()) {
            Ok(base_url) => Ok(XatuCatalogConfig { base_url, network }),
            Err(error) => Err(XatuError::Url(error)),
        }
    }
}

impl Clone for XatuCatalogConfig {
    fn clone(&self) -> (copy: XatuCatalogConfig)
        ensures
            copy == *self,
    {
        XatuCatalogConfig { base_url: self.base_url.clone(), network: self.network.clone() }
    }
}

/// One object of a table.
#[derive(Debug)]
pub struct CatalogObject {
    pub table: XatuTable,
    pub partition: String,
    pub location: String,
    pub url: String,
}

impl Clone for CatalogObject {
    fn clone(&self) -> (copy: CatalogObject)
        ensures
            copy == *self,
    {
        CatalogObject {
            table: self.table,
            partition: self.partition.clone(),
            location: self.location.clone(),
            url: self.url.clone(),
        }
    }
}

/// The path of an object below the base location.
pub open spec fn object_location(table: XatuTable, suffix: Seq<char>) -> Seq<char> {
    table.spec_name()@ + "/"@ + suffix
}

impl CatalogObject {
    /// The object of a partition, found below a base location.
    pub open spec fn names(
        self,
        base: Seq<char>,
        table: XatuTable,
        suffix: Seq<char>,
        partition: Seq<char>,
    ) -> bool {
        &&& self.table == table
        &&& self.partition@ == partition
        &&& self.location@ == object_location(table, suffix)
        &&& url_joined(base, object_location(table, suffix)) == Ok::<Seq<char>, Seq<char>>(
            self.url@,
        )
    }
}

/// How many chunks a range touches.
pub open spec fn chunk_count(range: BlockRange) -> nat {
    (range.end.0 as int / 1000 - range.start.0 as int / 1000 + 1) as nat
}

/// The first block of the chunk at a place in a range's list.
pub open spec fn chunk_at(range: BlockRange, at: int) -> int {
    (range.start.0 as int / 1000 + at) * 1000
}

pub open spec fn chunk_suffix(chunk: nat) -> Seq<char> {
    "1000/"@ + decimal_digits(chunk) + ".parquet"@
}

pub open spec fn day_suffix(date: XatuDate) -> Seq<char> {
    decimal_digits(date.year as nat) + "/"@ + decimal_digits(date.month as nat) + "/"@
        + decimal_digits(date.day as nat) + ".parquet"@
}

/// The dates from one on, up to another or to the last that has a next.
pub open spec fn visited_days(date: XatuDate, end: XatuDate) -> Seq<XatuDate>
    decreases 65535 - date.year, 255 - date.month, 255 - date.day,
{
    if date == end {
        seq![date]
    } else {
        match date.spec_next() {
            Some(next) => seq![date] + visited_days(next, end),
            None => seq![date],
        }
    }
}

/// The last of the dates visited is the one looked for.
pub open spec fn reaches(date: XatuDate, end: XatuDate) -> bool {
    visited_days(date, end).last() == end
}

pub proof fn lemma_visited(date: XatuDate, end: XatuDate)
    ensures
        visited_days(date, end).len() > 0,
        visited_days(date, end)[0] == date,
    decreases 65535 - date.year, 255 - date.month, 255 - date.day,
{
    match date.spec_next() {
        Some(next) if date != end => {
            lemma_visited(next, end);
        },
        _ => {},
    }
}

/// The days from one date to a later one are consecutive, and reach it.
pub proof fn law_days_are_consecutive(start: XatuDate, end: XatuDate)
    requires
        start.valid(),
        end.valid(),
        !end.before(start),
    ensures
        reaches(start, end),
        visited_days(start, end).len() == end.ordinal() - start.ordinal() + 1,
        forall|at: int|
            0 <= at < visited_days(start, end).len() ==> (#[trigger] visited_days(start, end)[at]).valid()
                && visited_days(start, end)[at].ordinal() == start.ordinal() + at,
    decreases end.ordinal() - start.ordinal(),
{
    law_ordinal_orders_dates(start, end);
    law_ordinal_orders_dates(end, start);
    law_next_is_one_day_later(start);
    let days = visited_days(start, end);
    if start != end {
        assert(start.spec_next() is Some) by {
            if start.spec_next() is None {
                assert(!start.before(end));
            }
        }
        let next = start.spec_next()->0;
        law_ordinal_orders_dates(end, next);
        law_days_are_consecutive(next, end);
        let tail = visited_days(next, end);
        assert(days =~= seq![start] + tail);
        assert forall|at: int| 0 <= at < days.len() implies (#[trigger] days[at]).valid()
            && days[at].ordinal() == start.ordinal() + at by {
            if at > 0 {
                assert(days[at] == tail[at - 1]);
            }
        }
    }
}

/// A block of a range that is in one of the range's chunks.
pub open spec fn in_chunk(range: BlockRange, at: int, block: int) -> bool {
    range.has(block) && chunk_at(range, at) <= block < chunk_at(range, at) + 1000
}

/// A chunk that a range has a block in.
pub open spec fn is_touched(range: BlockRange, at: int) -> bool {
    exists|block: int| #[trigger] in_chunk(range, at, block)
}

/// Every block of a range is in one of the range's chunks, and every chunk
/// has a block of the range.
pub proof fn law_chunks_cover_the_range(range: BlockRange)
    requires
        range.wf(),
    ensures
        forall|block: int| #[trigger]
            range.has(block) ==> exists|at: int|
                0 <= at < chunk_count(range) && #[trigger] in_chunk(range, at, block),
        forall|at: int|
            0 <= at < chunk_count(range) ==> #[trigger] is_touched(range, at),
{
    assert forall|block: int| #[trigger] range.has(block) implies exists|at: int|
        0 <= at < chunk_count(range) && #[trigger] in_chunk(range, at, block) by {
        assert(in_chunk(range, block / 1000 - range.start.0 as int / 1000, block));
    }
    assert forall|at: int| 0 <= at < chunk_count(range) implies #[trigger] is_touched(
        range,
        at,
    ) by {
        let chunk = chunk_at(range, at);
        let block = if chunk < range.start.0 {
            range.start.0 as int
        } else {
            chunk
        };
        assert(in_chunk(range, at, block));
    }
}

/// Read-only catalog of a network's public data.
#[derive(Debug)]
pub struct XatuCatalog {
    pub config: XatuCatalogConfig,
}

impl Clone for XatuCatalog {
    fn clone(&self) -> (copy: XatuCatalog)
        ensures
            copy == *self,
    {
        XatuCatalog { config: self.config.clone() }
    }
}

impl XatuCatalog {
    pub fn new(config: XatuCatalogConfig) -> (catalog: XatuCatalog)
        ensures
            catalog.config == config,
    {
        XatuCatalog { config }
    }

    pub fn config(&self) -> (config: &XatuCatalogConfig)
        ensures
            *config == self.config,
    {
        &self.config
    }

    /// The location of an object can be joined to the base.
    pub open spec fn resolves(self, table: XatuTable, suffix: Seq<char>) -> bool {
        url_joined(self.config.base_url@, object_location(table, suffix)) is Ok
    }

    /// Why the location of an object cannot be joined to the base.
    pub open spec fn fails_to_resolve(
        self,
        table: XatuTable,
        suffix: Seq<char>,
        error: XatuError,
    ) -> bool {
        match url_joined(self.config.base_url@, object_location(table, suffix)) {
            Ok(_) => false,
            Err(words) => error.is_url_error(words),
        }
    }

    fn object(&self, table: XatuTable, suffix: &str, partition: String) -> (outcome: Result<
        CatalogObject,
        XatuError,
    >)
        ensures
            match outcome {
                Ok(object) => {
                    &&& self.resolves(table, suffix@)
                    &&& object.names(self.config.base_url@, table, suffix@, partition@)
                },
                Err(error) => self.fails_to_resolve(table, suffix@, error),
            },
    {
        let mut location: String = joined(table.name(), "/");
        location.append(suffix);
        match join_url(self.config.base_url.as_str(), location.as_str()) {
            Ok(url) => Ok(CatalogObject { table, partition, location, url }),
            Err(error) => Err(XatuError::Url(error)),
        }
    }

    /// Every chunk of a range can be located.
    pub open spec fn chunks_resolve(self, table: XatuTable, range: BlockRange) -> bool {
        forall|at: int|
            0 <= at < chunk_count(range) ==> self.resolves(
                table,
                chunk_suffix(#[trigger] chunk_at(range, at) as nat),
            )
    }

    /// Why the first chunk of a range that cannot be located is none.
    pub open spec fn is_chunk_problem(
        self,
        table: XatuTable,
        range: BlockRange,
        error: XatuError,
    ) -> bool {
        exists|at: int|
            0 <= at < chunk_count(range) && self.fails_to_resolve(
                table,
                chunk_suffix(#[trigger] chunk_at(range, at) as nat),
                error,
            ) && forall|earlier: int|
                0 <= earlier < at ==> self.resolves(
                    table,
                    chunk_suffix(#[trigger] chunk_at(range, earlier) as nat),
                )
    }

    /// The objects of every chunk of a range, in order.
    pub open spec fn is_chunk_list(
        self,
        table: XatuTable,
        range: BlockRange,
        objects: Seq<CatalogObject>,
    ) -> bool {
        &&& objects.len() == chunk_count(range)
        &&& forall|at: int|
            0 <= at < objects.len() ==> (#[trigger] objects[at]).names(
                self.config.base_url@,
                table,
                chunk_suffix(chunk_at(range, at) as nat),
                decimal_digits(chunk_at(range, at) as nat),
            )
    }

    /// Resolves every 1,000-block execution partition that a range touches.
    pub fn execution_objects(&self, table: XatuTable, range: BlockRange) -> (outcome: Result<
        Vec<CatalogObject>,
        XatuError,
    >)
        requires
            range.wf(),
        ensures
            if table.spec_partition_kind() != PartitionKind::BlockChunk1000 {
                outcome == Err::<Vec<CatalogObject>, XatuError>(XatuError::PartitionKind)
            } else {
                match outcome {
                    Ok(objects) => self.chunks_resolve(table, range) && self.is_chunk_list(
                        table,
                        range,
                        objects@,
                    ),
                    Err(error) => self.is_chunk_problem(table, range, error),
                }
            },
    {
        if table.partition_kind() != PartitionKind::BlockChunk1000 {
            return Err(XatuError::PartitionKind);
        }
        let first: u64 = (range.start.0 / 1000) * 1000;
        let last: u64 = (range.end.0 / 1000) * 1000;
        let mut objects: Vec<CatalogObject> = Vec::new();
        let mut chunk: u64 = first;
        loop
            invariant
                table.spec_partition_kind() == PartitionKind::BlockChunk1000,
                range.wf(),
                first == (range.start.0 as int / 1000) * 1000,
                last == (range.end.0 as int / 1000) * 1000,
                chunk <= last,
                chunk == chunk_at(range, objects@.len() as int),
                objects@.len() < chunk_count(range),
                forall|at: int|
                    0 <= at < objects@.len() ==> (#[trigger] objects@[at]).names(
                        self.config.base_url@,
                        table,
                        chunk_suffix(chunk_at(range, at) as nat),
                        decimal_digits(chunk_at(range, at) as nat),
                    ),
                forall|at: int|
                    0 <= at < objects@.len() ==> self.resolves(
                        table,
                        chunk_suffix(#[trigger] chunk_at(range, at) as nat),
                    ),
            decreases last - chunk,
        {
            let mut partition: String = String::new();
            push_decimal(&mut partition, chunk);
            let mut suffix: String = joined("1000/", partition.as_str());
            suffix.append(".parquet");
            proof {
                assert(partition@ =~= decimal_digits(chunk as nat));
                assert(suffix@ =~= chunk_suffix(chunk as nat));
            }
            match self.object(table, suffix.as_str(), partition) {
                Ok(object) => {
                    objects.push(object);
                },
                Err(error) => {
                    assert(self.fails_to_resolve(
                        table,
                        chunk_suffix(chunk_at(range, objects@.len() as int) as nat),
                        error,
                    ));
                    return Err(error);
                },
            }
            if chunk == last {
                assert(objects@.len() == chunk_count(range));
                return Ok(objects);
            }
            chunk = chunk + 1000;
        }
    }

    /// Every day of a list can be located.
    pub open spec fn days_resolve(self, table: XatuTable, days: Seq<XatuDate>) -> bool {
        forall|at: int|
            0 <= at < days.len() ==> self.resolves(table, day_suffix(#[trigger] days[at]))
    }

    /// Why the first day of a list that cannot be located is none.
    pub open spec fn is_day_problem(
        self,
        table: XatuTable,
        days: Seq<XatuDate>,
        error: XatuError,
    ) -> bool {
        exists|at: int|
            0 <= at < days.len() && self.fails_to_resolve(
                table,
                day_suffix(#[trigger] days[at]),
                error,
            ) && forall|earlier: int|
                0 <= earlier < at ==> self.resolves(table, day_suffix(#[trigger] days[earlier]))
    }

    /// The objects of every day of a list, in order.
    pub open spec fn is_day_list(
        self,
        table: XatuTable,
        days: Seq<XatuDate>,
        objects: Seq<CatalogObject>,
    ) -> bool {
        &&& objects.len() == days.len()
        &&& forall|at: int|
            0 <= at < objects.len() ==> (#[trigger] objects[at]).names(
                self.config.base_url@,
                table,
                day_suffix(days[at]),
                days[at].spec_text(),
            )
    }

    /// Resolves every daily beacon partition in an inclusive date range.
    pub fn daily_objects(&self, table: XatuTable, start: XatuDate, end: XatuDate) -> (outcome:
        Result<Vec<CatalogObject>, XatuError>)
        ensures
            if table.spec_partition_kind() != PartitionKind::Daily {
                outcome == Err::<Vec<CatalogObject>, XatuError>(XatuError::PartitionKind)
            } else if end.before(start) {
                outcome == Err::<Vec<CatalogObject>, XatuError>(XatuError::Date)
            } else {
                let days = visited_days(start, end);
                if !self.days_resolve(table, days) {
                    outcome matches Err(error) && self.is_day_problem(table, days, error)
                } else if !reaches(start, end) {
                    outcome == Err::<Vec<CatalogObject>, XatuError>(XatuError::Date)
                } else {
                    outcome matches Ok(objects) && self.is_day_list(table, days, objects@)
                }
            },
    {
        if table.partition_kind() != PartitionKind::Daily {
            return Err(XatuError::PartitionKind);
        }
        if end.is_before(start) {
            return Err(XatuError::Date);
        }
        let ghost days = visited_days(start, end);
        let mut objects: Vec<CatalogObject> = Vec::new();
        let mut date: XatuDate = start;
        proof {
            lemma_visited(start, end);
            assert(days.skip(0) =~= days);
        }
        loop
            invariant
                table.spec_partition_kind() == PartitionKind::Daily,
                !end.before(start),
                days == visited_days(start, end),
                objects@.len() < days.len(),
                visited_days(date, end) == days.skip(objects@.len() as int),
                days[objects@.len() as int] == date,
                forall|at: int|
                    0 <= at < objects@.len() ==> (#[trigger] objects@[at]).names(
                        self.config.base_url@,
                        table,
                        day_suffix(days[at]),
                        days[at].spec_text(),
                    ),
                forall|at: int|
                    0 <= at < objects@.len() ==> self.resolves(
                        table,
                        day_suffix(#[trigger] days[at]),
                    ),
            decreases 65535 - date.year, 255 - date.month, 255 - date.day,
        {
            let partition: String = date.text();
            let mut suffix: String = String::new();
            push_decimal(&mut suffix, date.year as u64);
            suffix.append("/");
            push_decimal(&mut suffix, date.month as u64);
            suffix.append("/");
            push_decimal(&mut suffix, date.day as u64);
            suffix.append(".parquet");
            proof {
                assert(suffix@ =~= day_suffix(date));
                lemma_visited(date, end);
            }
            match self.object(table, suffix.as_str(), partition) {
                Ok(object) => {
                    objects.push(object);
                },
                Err(error) => {
                    assert(self.fails_to_resolve(
                        table,
                        day_suffix(days[objects@.len() as int]),
                        error,
                    ));
                    return Err(error);
                },
            }
            let ghost place = objects@.len() as int;
            if date == end {
                proof {
                    assert(days.skip(place - 1).len() == 1);
                    assert(days.last() == date);
                }
                return Ok(objects);
            }
            let ghost here = date;
            match date.next() {
                Ok(next) => {
                    proof {
                        lemma_visited(next, end);
                        let tail = visited_days(next, end);
                        assert(days.skip(place - 1) == seq![here] + tail);
                        assert(days.skip(place) =~= tail) by {
                            assert(days.skip(place) =~= days.skip(place - 1).skip(1));
                            assert((seq![here] + tail).skip(1) =~= tail);
                        }
                        assert(days[place] == tail[0]);
                    }
                    date = next;
                },
                Err(_) => {
                    proof {
                        assert(days.skip(place - 1).len() == 1);
                        assert(days.last() == here);
                    }
                    return Err(XatuError::Date);
                },
            }
        }
    }
}

/// One leaf column of an object's schema.
#[derive(Debug)]
pub struct ParquetColumn {
    pub path: String,
    pub physical_type: String,
    pub logical_type: Option<String>,
    pub max_definition_level: i16,
    pub max_repetition_level: i16,
}

/// The root of a column's path.
pub open spec fn root_of(path: Seq<char>) -> Seq<char> {
    pieces(path, '.')[0]
}

/// Some column has this root.
pub open spec fn has_root(columns: Seq<ParquetColumn>, name: Seq<char>) -> bool {
    exists|i: int| 0 <= i < columns.len() && root_of((#[trigger] columns[i]).path@) == name
}

/// The required columns among the first `count` that an object lacks.
pub open spec fn lacking(
    table: XatuTable,
    columns: Seq<ParquetColumn>,
    count: int,
) -> Seq<Seq<char>>
    decreases count,
{
    if count <= 0 {
        Seq::empty()
    } else {
        let name = table.spec_required_columns()[count - 1]@;
        let before = lacking(table, columns, count - 1);
        if has_root(columns, name) {
            before
        } else {
            before.push(name)
        }
    }
}

/// All required columns that an object lacks.
pub open spec fn all_lacking(table: XatuTable, columns: Seq<ParquetColumn>) -> Seq<Seq<char>> {
    lacking(table, columns, table.spec_required_columns().len() as int)
}

fn has_column(columns: &Vec<ParquetColumn>, name: &str) -> (found: bool)
    ensures
        found == has_root(columns@, name@),
{
    let mut index: usize = 0;
    while index < columns.len()
        invariant
            index <= columns.len(),
            forall|i: int| 0 <= i < index ==> root_of((#[trigger] columns@[i]).path@) != name@,
        decreases columns.len() - index,
    {
        let parts: Vec<String> = split(columns[index].path.as_str(), '.');
        assert(texts(parts@)[0] == parts@[0]@);
        if same_text(parts[0].as_str(), name) {
            assert(root_of(columns@[index as int].path@) == name@);
            return true;
        }
        index += 1;
    }
    false
}

/// Names the required columns that an object lacks.
pub fn missing_required_columns(table: XatuTable, columns: &Vec<ParquetColumn>) -> (missing: Vec<
    String,
>)
    ensures
        texts(missing@) == all_lacking(table, columns@),
{
    let required: &'static [&'static str] = table.required_columns();
    let mut missing: Vec<String> = Vec::new();
    let mut index: usize = 0;
    proof {
        assert(texts(missing@) =~= Seq::<Seq<char>>::empty());
    }
    while index < required.len()
        invariant
            index <= required@.len(),
            required@ == table.spec_required_columns(),
            texts(missing@) == lacking(table, columns@, index as int),
        decreases required@.len() - index,
    {
        if !has_column(columns, required[index]) {
            let ghost before = texts(missing@);
            missing.push(required[index].to_owned());
            assert(texts(missing@) =~= before.push(required@[index as int]@));
        }
        index += 1;
    }
    missing
}

/// Columns that are always selected.
pub fn selected_columns(table: XatuTable) -> (columns: Vec<String>)
    ensures
        columns@.len() == table.spec_required_columns().len(),
        forall|i: int|
            0 <= i < columns@.len() ==> (#[trigger] columns@[i])@
                == table.spec_required_columns()[i]@,
{
    let required: &'static [&'static str] = table.required_columns();
    let mut columns: Vec<String> = Vec::new();
    let mut index: usize = 0;
    while index < required.len()
        invariant
            index <= required@.len(),
            required@ == table.spec_required_columns(),
            columns@.len() == index,
            forall|i: int|
                0 <= i < index ==> (#[trigger] columns@[i])@
                    == table.spec_required_columns()[i]@,
        decreases required@.len() - index,
    {
        columns.push(required[index].to_owned());
        index += 1;
    }
    columns
}

/// What a probe found of one object.
#[derive(Debug)]
pub struct ObjectInspection {
    pub object: CatalogObject,
    pub size_bytes: u64,
    pub e_tag: Option<String>,
    pub version: Option<String>,
    pub last_modified: String,
    pub rows: i64,
    pub row_groups: usize,
    pub created_by: Option<String>,
    pub columns: Vec<ParquetColumn>,
    pub selected_columns: Vec<String>,
    pub missing_required_columns: Vec<String>,
}

/// Why an object is not usable.
#[derive(Debug)]
pub struct ObjectProbeFailure {
    pub object: CatalogObject,
    pub error: XatuError,
}

/// What became of one probed object.
#[derive(Debug)]
pub enum ProbeOutcome {
    Inspected(ObjectInspection),
    Failed(ObjectProbeFailure),
}

impl ProbeOutcome {
    pub open spec fn spec_object(self) -> CatalogObject {
        match self {
            ProbeOutcome::Inspected(inspection) => inspection.object,
            ProbeOutcome::Failed(failure) => failure.object,
        }
    }
}

impl Keyed for ProbeOutcome {
    open spec fn key(&self) -> Seq<u8> {
        seq![self.spec_object().table.spec_rank()] + encode_utf8(self.spec_object().partition@)
    }

    fn key_bytes(&self) -> (bytes: Vec<u8>) {
        let object: &CatalogObject = match self {
            ProbeOutcome::Inspected(inspection) => &inspection.object,
            ProbeOutcome::Failed(failure) => &failure.object,
        };
        let mut bytes: Vec<u8> = Vec::new();
        bytes.push(object.table.rank());
        let mut name: Vec<u8> = object.partition.as_str().as_bytes_vec();
        bytes.append(&mut name);
        assert(bytes@ =~= self.key());
        bytes
    }
}

/// What a probe found of many objects.
#[derive(Debug)]
pub struct CatalogProbeReport {
    pub catalog_base_url: String,
    pub network: String,
    pub objects: Vec<ObjectInspection>,
    pub failures: Vec<ObjectProbeFailure>,
    pub total_object_bytes: u64,
}

/// The inspections among outcomes, in order.
pub open spec fn inspections_of(outcomes: Seq<ProbeOutcome>) -> Seq<ObjectInspection>
    decreases outcomes.len(),
{
    if outcomes.len() == 0 {
        Seq::empty()
    } else {
        let before = inspections_of(outcomes.drop_last());
        match outcomes.last() {
            ProbeOutcome::Inspected(inspection) => before.push(inspection),
            ProbeOutcome::Failed(_) => before,
        }
    }
}

/// A failure that an outcome is reported with.
pub open spec fn is_failure_of(outcome: ProbeOutcome, failure: ObjectProbeFailure) -> bool {
    match outcome {
        ProbeOutcome::Failed(reported) => failure == reported,
        ProbeOutcome::Inspected(inspection) => {
            &&& failure.object == inspection.object
            &&& failure.error matches XatuError::Schema { table, missing } && table
                == inspection.object.table && missing@ == inspection.missing_required_columns@
        },
    }
}

/// The outcomes that are reported as failures, in order.
pub open spec fn failing(outcomes: Seq<ProbeOutcome>) -> Seq<ProbeOutcome>
    decreases outcomes.len(),
{
    if outcomes.len() == 0 {
        Seq::empty()
    } else {
        let before = failing(outcomes.drop_last());
        let last = outcomes.last();
        if last matches ProbeOutcome::Inspected(inspection)
            && inspection.missing_required_columns@.len() == 0 {
            before
        } else {
            before.push(last)
        }
    }
}

/// All bytes of inspected objects, as far as they can be counted.
pub open spec fn inspected_bytes(inspections: Seq<ObjectInspection>) -> u64
    decreases inspections.len(),
{
    if inspections.len() == 0 {
        0
    } else {
        let total = inspected_bytes(inspections.drop_last()) + inspections.last().size_bytes;
        if total > u64::MAX {
            u64::MAX
        } else {
            total as u64
        }
    }
}

/// Probing needs a place to work in.
pub fn check_concurrency(concurrency: usize) -> (outcome: Result<(), XatuError>)
    ensures
        outcome == if concurrency == 0 {
            Err::<(), XatuError>(XatuError::Concurrency)
        } else {
            Ok(())
        },
{
    if concurrency == 0 {
        Err(XatuError::Concurrency)
    } else {
        Ok(())
    }
}

impl CatalogProbeReport {
    /// Everything was found, and nothing lacks a required column.
    pub open spec fn spec_valid(self) -> bool {
        &&& self.failures@.len() == 0
        &&& forall|i: int|
            0 <= i < self.objects@.len() ==> (
            #[trigger] self.objects@[i]).missing_required_columns@.len() == 0
    }

    pub fn is_valid(&self) -> (valid: bool)
        ensures
            valid == self.spec_valid(),
    {
        if self.failures.len() > 0 {
            return false;
        }
        let mut index: usize = 0;
        while index < self.objects.len()
            invariant
                index <= self.objects.len(),
                forall|i: int|
                    0 <= i < index ==> (
                    #[trigger] self.objects@[i]).missing_required_columns@.len() == 0,
            decreases self.objects.len() - index,
        {
            if self.objects[index].missing_required_columns.len() > 0 {
                return false;
            }
            index += 1;
        }
        true
    }

    /// Reports outcomes by table and partition. Individual failures are
    /// retained, so that probes are useful during outages and schema
    /// transitions.
    pub fn assemble(config: &XatuCatalogConfig, outcomes: Vec<ProbeOutcome>) -> (report:
        CatalogProbeReport)
        ensures
            report.catalog_base_url == config.base_url,
            report.network == config.network,
            report.objects@ == inspections_of(stable_order(outcomes@)),
            report.failures@.len() == failing(stable_order(outcomes@)).len(),
            forall|i: int|
                0 <= i < report.failures@.len() ==> is_failure_of(
                    failing(stable_order(outcomes@))[i],
                    #[trigger] report.failures@[i],
                ),
            report.total_object_bytes == inspected_bytes(report.objects@),
    {
        let sorted: Vec<ProbeOutcome> = stable_sort(outcomes);
        let ghost all = sorted@;
        let mut rest: Vec<ProbeOutcome> = reversed(sorted);
        let mut objects: Vec<ObjectInspection> = Vec::new();
        let mut failures: Vec<ObjectProbeFailure> = Vec::new();
        let mut total: u64 = 0;
        proof {
            assert(all.take(0) =~= Seq::<ProbeOutcome>::empty());
        }
        while rest.len() > 0
            invariant
                rest@.len() <= all.len(),
                forall|i: int|
                    0 <= i < rest@.len() ==> #[trigger] rest@[i] == all[all.len() - 1 - i],
                objects@ == inspections_of(all.take(all.len() - rest@.len())),
                failures@.len() == failing(all.take(all.len() - rest@.len())).len(),
                forall|i: int|
                    0 <= i < failures@.len() ==> is_failure_of(
                        failing(all.take(all.len() - rest@.len()))[i],
                        #[trigger] failures@[i],
                    ),
                total == inspected_bytes(objects@),
            decreases rest@.len(),
        {
            let ghost done = all.len() - rest@.len();
            let ghost held = failures@;
            let ghost counted = objects@;
            if let Some(outcome) = rest.pop() {
                proof {
                    let longer = all.take(done + 1);
                    assert(longer.drop_last() =~= all.take(done));
                    assert(longer.last() == outcome);
                }
                match outcome {
                    ProbeOutcome::Inspected(inspection) => {
                        if inspection.missing_required_columns.len() > 0 {
                            failures.push(
                                ObjectProbeFailure {
                                    object: inspection.object.clone(),
                                    error: XatuError::Schema {
                                        table: inspection.object.table,
                                        missing: clone_texts(
                                            &inspection.missing_required_columns,
                                        ),
                                    },
                                },
                            );
                        }
                        total = total.saturating_add(inspection.size_bytes);
                        objects.push(inspection);
                        assert(objects@.drop_last() =~= counted);
                    },
                    ProbeOutcome::Failed(failure) => {
                        failures.push(failure);
                    },
                }
                proof {
                    let before = failing(all.take(done));
                    let after = failing(all.take(done + 1));
                    assert forall|i: int| 0 <= i < failures@.len() implies is_failure_of(
                        after[i],
                        #[trigger] failures@[i],
                    ) by {
                        if i < held.len() {
                            assert(failures@[i] == held[i]);
                            assert(after[i] == before[i]);
                        }
                    }
                }
            }
        }
        proof {
            assert(all.take(all.len() as int) =~= all);
        }
        CatalogProbeReport {
            catalog_base_url: config.base_url.clone(),
            network: config.network.clone(),
            objects,
            failures,
            total_object_bytes: total,
        }
    }
}

} // verus!
