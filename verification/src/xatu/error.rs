//! Errors of the Xatu catalog, projection and normalization.

use crate::primitives::{BlockRange, TransactionHash};
use crate::xatu::catalog::XatuTable;
use vstd::prelude::*;

verus! {

/// What of projected data is invalid.
#[derive(Clone, Copy, Debug)]
pub enum DataProblem {
    Text(&'static str),
    /// A batch has no such column.
    MissingColumn(&'static str),
    /// An object has no such column.
    MissingProjectedColumn(&'static str),
    Null { column: &'static str, row: usize },
    NullBinary { row: usize },
    Overflow { column: &'static str, width: &'static str, row: usize },
    UnexpectedType { column: &'static str },
    /// The values of a column, or the elements of its lists, are not binary.
    NotBinary { column: &'static str, element: bool },
    QuantityLength { column: &'static str, length: usize, row: usize },
    /// The byte at `position` of a value, or of an element of a list, is not a
    /// hexadecimal digit.
    InvalidHex {
        column: &'static str,
        element: Option<usize>,
        row: usize,
        byte: u8,
        position: usize,
    },
    OddHex { column: &'static str, row: usize },
    ByteLength {
        column: &'static str,
        element: Option<usize>,
        row: usize,
        length: usize,
        expected: usize,
    },
    Duplicate(&'static str),
    NoBlobHashes { slot: u64 },
    /// The row's value is no known block version.
    UnsupportedVersion { column: &'static str, row: usize },
    MissingExecutionBlock(u64),
    MissingBeaconBlock(u64),
    BlockDisagreement(u64),
    SizeCoverage { number: u64, rows: usize, expected: u32 },
    ByteDisagreement { number: u64, rows: u64, beacon: u64 },
    MissingExecutionTransaction { hash: TransactionHash, number: u64 },
    TransactionDisagreement(TransactionHash),
    BlobGasDisagreement(TransactionHash),
    DuplicateTransactionIndex(u64),
    DuplicateLogIndex(u64),
}

#[derive(Debug)]
pub enum XatuError {
    PartitionKind,
    Date,
    Network(String),
    BlockRange,
    Concurrency,
    /// The words of an address that cannot be parsed or joined.
    Url(String),
    ObjectStore(String),
    Parquet(String),
    Data(DataProblem),
    /// A column has another type than is read, which is told in these words.
    UnexpectedType { column: &'static str, data_type: String },
    /// Values that should be binary have another type, told in these words.
    NotBinary { data_type: String },
    /// A beacon block has a version whose size rules are not known.
    UnsupportedVersion(Vec<u8>),
    IncompleteRange { table: XatuTable, range: BlockRange, expected: usize, actual: usize },
    Budget { resource: &'static str, actual: u64, limit: u64 },
    Cancelled,
    Schema { table: XatuTable, missing: Vec<String> },
}

impl XatuError {
    /// An address is at fault, in these words.
    pub open spec fn is_url_error(self, words: Seq<char>) -> bool {
        self matches XatuError::Url(text) && text@ == words
    }
}

} // verus!
