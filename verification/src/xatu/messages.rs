//! The words in which problems of the dataset are told.

use crate::text::{debug_symbol, debug_text, decimal_digits, hash_text, lossy_text, range_text};
use crate::text::{decode_lossy, push_debug, push_debug_symbol, push_decimal, push_hash};
use crate::text::{push_range, texts};
use crate::xatu::error::{DataProblem, XatuError};
use crate::xatu::history::{push_quoted_list, quoted_list};
use vstd::prelude::*;

verus! {

/// The place of a value: its column and row, and its place in a list.
pub open spec fn context_text(column: &'static str, element: Option<usize>, row: usize) -> Seq<
    char,
> {
    match element {
        Some(index) => column@ + " element "@ + decimal_digits(index as nat) + " at row "@
            + decimal_digits(row as nat),
        None => column@ + " at row "@ + decimal_digits(row as nat),
    }
}

fn context(column: &'static str, element: &Option<usize>, row: &usize) -> (text: String)
    ensures
        text@ == context_text(column, *element, *row),
{
    let mut text: String = column.to_owned();
    if let Some(index) = element {
        text.append(" element ");
        push_decimal(&mut text, *index as u64);
    }
    text.append(" at row ");
    push_decimal(&mut text, *row as u64);
    text
}

/// A column that has another type than is read.
pub open spec fn column_text(column: Seq<char>, data_type: Seq<char>) -> Seq<char> {
    column + " has unexpected Arrow type "@ + data_type
}

/// Tells of a column that has another type than is read.
pub fn tell_column(column: &str, data_type: &str) -> (text: String)
    ensures
        text@ == column_text(column@, data_type@),
{
    let mut text: String = column.to_owned();
    text.append(" has unexpected Arrow type ");
    text.append(data_type);
    text
}

/// Values that should be binary and are not.
pub open spec fn values_text(data_type: Seq<char>) -> Seq<char> {
    "expected binary Arrow array, got "@ + data_type
}

/// Tells of values that should be binary and are not.
pub fn tell_values(data_type: &str) -> (text: String)
    ensures
        text@ == values_text(data_type@),
{
    let mut text: String = "expected binary Arrow array, got ".to_owned();
    text.append(data_type);
    text
}

/// A block version whose size rules are not known.
pub open spec fn version_text(version: Seq<u8>) -> Seq<char> {
    "unsupported Xatu beacon block version "@ + debug_text(lossy_text(version))
        + "; execution-size rules must be updated explicitly"@
}

/// Tells of a block version whose size rules are not known.
pub fn tell_version(version: &Vec<u8>) -> (text: String)
    ensures
        text@ == version_text(version@),
{
    let mut text: String = "unsupported Xatu beacon block version ".to_owned();
    push_debug(&mut text, decode_lossy(version.as_slice()).as_str());
    text.append("; execution-size rules must be updated explicitly");
    text
}

impl DataProblem {
    /// What of projected data is invalid, in words.
    pub open spec fn spec_message(self) -> Seq<char> {
        match self {
            DataProblem::Text(text) => text@,
            DataProblem::MissingColumn(name) => {
                "Schema error: Unable to get field named \""@ + name@ + "\""@
            },
            DataProblem::MissingProjectedColumn(name) => {
                "projected column \""@ + name@ + "\" is missing"@
            },
            DataProblem::Null { column, row } => {
                column@ + " is null at row "@ + decimal_digits(row as nat)
            },
            DataProblem::NullBinary { row } => {
                "binary value is null at row "@ + decimal_digits(row as nat)
            },
            DataProblem::Overflow { column, width, row } => {
                column@ + " overflows "@ + width@ + " at row "@ + decimal_digits(row as nat)
            },
            DataProblem::UnexpectedType { column } => column@ + " has unexpected Arrow type"@,
            DataProblem::NotBinary { .. } => "expected binary Arrow array"@,
            DataProblem::QuantityLength { column, length, row } => {
                column@ + " has "@ + decimal_digits(length as nat) + " raw bytes at row "@
                    + decimal_digits(row as nat) + "; expected 1-32"@
            },
            DataProblem::InvalidHex { column, element, row, byte, position } => {
                context_text(column, element, row) + " has invalid hex: Invalid character "@
                    + debug_symbol(byte as char) + " at position "@
                    + decimal_digits(position as nat)
            },
            DataProblem::OddHex { column, row } => {
                context_text(column, None, row) + " has an odd hexadecimal length"@
            },
            DataProblem::ByteLength { column, element, row, length, expected } => {
                context_text(column, element, row) + " has "@ + decimal_digits(length as nat)
                    + " bytes; expected "@ + decimal_digits(expected as nat)
                    + " raw bytes or 0x-prefixed hex"@
            },
            DataProblem::Duplicate(label) => "duplicate "@ + label@ + " row"@,
            DataProblem::NoBlobHashes { slot } => {
                "type-3 transaction at slot "@ + decimal_digits(slot as nat)
                    + " has no blob hashes"@
            },
            DataProblem::UnsupportedVersion { row, .. } => {
                "unsupported Xatu beacon block version at row "@ + decimal_digits(row as nat)
            },
            DataProblem::MissingExecutionBlock(number) => {
                "missing execution block "@ + decimal_digits(number as nat)
            },
            DataProblem::MissingBeaconBlock(number) => {
                "missing beacon block "@ + decimal_digits(number as nat)
            },
            DataProblem::BlockDisagreement(number) => {
                "execution/beacon block disagreement at "@ + decimal_digits(number as nat)
            },
            DataProblem::SizeCoverage { number, rows, expected } => {
                "execution transaction-size coverage mismatch at "@ + decimal_digits(number as nat)
                    + ": rows="@ + decimal_digits(rows as nat) + ", expected="@
                    + decimal_digits(expected as nat)
            },
            DataProblem::ByteDisagreement { number, rows, beacon } => {
                "execution transaction byte disagreement at "@ + decimal_digits(number as nat)
                    + ": rows="@ + decimal_digits(rows as nat) + ", beacon="@
                    + decimal_digits(beacon as nat)
            },
            DataProblem::MissingExecutionTransaction { hash, number } => {
                "missing execution transaction "@ + hash_text(hash.0@) + " for block "@
                    + decimal_digits(number as nat)
            },
            DataProblem::TransactionDisagreement(hash) => {
                "cross-table transaction disagreement for "@ + hash_text(hash.0@)
            },
            DataProblem::BlobGasDisagreement(hash) => {
                "blob gas/hash-count disagreement for "@ + hash_text(hash.0@)
            },
            DataProblem::DuplicateTransactionIndex(number) => {
                "duplicate transaction index in block "@ + decimal_digits(number as nat)
            },
            DataProblem::DuplicateLogIndex(number) => {
                "duplicate log index in block "@ + decimal_digits(number as nat)
            },
        }
    }

    /// Tells what of projected data is invalid.
    pub fn message(&self) -> (text: String)
        ensures
            text@ == self.spec_message(),
    {
        match self {
            DataProblem::Text(text) => (*text).to_owned(),
            DataProblem::MissingColumn(name) => {
                let mut text: String = "Schema error: Unable to get field named \"".to_owned();
                text.append(*name);
                text.append("\"");
                text
            },
            DataProblem::MissingProjectedColumn(name) => {
                let mut text: String = "projected column \"".to_owned();
                text.append(*name);
                text.append("\" is missing");
                text
            },
            DataProblem::Null { column, row } => {
                let mut text: String = (*column).to_owned();
                text.append(" is null at row ");
                push_decimal(&mut text, *row as u64);
                text
            },
            DataProblem::NullBinary { row } => {
                let mut text: String = "binary value is null at row ".to_owned();
                push_decimal(&mut text, *row as u64);
                text
            },
            DataProblem::Overflow { column, width, row } => {
                let mut text: String = (*column).to_owned();
                text.append(" overflows ");
                text.append(*width);
                text.append(" at row ");
                push_decimal(&mut text, *row as u64);
                text
            },
            DataProblem::UnexpectedType { column } => {
                let mut text: String = (*column).to_owned();
                text.append(" has unexpected Arrow type");
                text
            },
            DataProblem::NotBinary { .. } => "expected binary Arrow array".to_owned(),
            DataProblem::QuantityLength { column, length, row } => {
                let mut text: String = (*column).to_owned();
                text.append(" has ");
                push_decimal(&mut text, *length as u64);
                text.append(" raw bytes at row ");
                push_decimal(&mut text, *row as u64);
                text.append("; expected 1-32");
                text
            },
            DataProblem::InvalidHex { column, element, row, byte, position } => {
                let mut text: String = context(*column, element, row);
                text.append(" has invalid hex: Invalid character ");
                push_debug_symbol(&mut text, *byte as char);
                text.append(" at position ");
                push_decimal(&mut text, *position as u64);
                text
            },
            DataProblem::OddHex { column, row } => {
                let mut text: String = context(*column, &None, row);
                text.append(" has an odd hexadecimal length");
                text
            },
            DataProblem::ByteLength { column, element, row, length, expected } => {
                let mut text: String = context(*column, element, row);
                text.append(" has ");
                push_decimal(&mut text, *length as u64);
                text.append(" bytes; expected ");
                push_decimal(&mut text, *expected as u64);
                text.append(" raw bytes or 0x-prefixed hex");
                text
            },
            DataProblem::Duplicate(label) => {
                let mut text: String = "duplicate ".to_owned();
                text.append(*label);
                text.append(" row");
                text
            },
            DataProblem::NoBlobHashes { slot } => {
                let mut text: String = "type-3 transaction at slot ".to_owned();
                push_decimal(&mut text, *slot);
                text.append(" has no blob hashes");
                text
            },
            DataProblem::UnsupportedVersion { row, .. } => {
                let mut text: String = "unsupported Xatu beacon block version at row ".to_owned();
                push_decimal(&mut text, *row as u64);
                text
            },
            DataProblem::MissingExecutionBlock(number) => {
                let mut text: String = "missing execution block ".to_owned();
                push_decimal(&mut text, *number);
                text
            },
            DataProblem::MissingBeaconBlock(number) => {
                let mut text: String = "missing beacon block ".to_owned();
                push_decimal(&mut text, *number);
                text
            },
            DataProblem::BlockDisagreement(number) => {
                let mut text: String = "execution/beacon block disagreement at ".to_owned();
                push_decimal(&mut text, *number);
                text
            },
            DataProblem::SizeCoverage { number, rows, expected } => {
                let mut text: String =
                    "execution transaction-size coverage mismatch at ".to_owned();
                push_decimal(&mut text, *number);
                text.append(": rows=");
                push_decimal(&mut text, *rows as u64);
                text.append(", expected=");
                push_decimal(&mut text, *expected as u64);
                text
            },
            DataProblem::ByteDisagreement { number, rows, beacon } => {
                let mut text: String = "execution transaction byte disagreement at ".to_owned();
                push_decimal(&mut text, *number);
                text.append(": rows=");
                push_decimal(&mut text, *rows);
                text.append(", beacon=");
                push_decimal(&mut text, *beacon);
                text
            },
            DataProblem::MissingExecutionTransaction { hash, number } => {
                let mut text: String = "missing execution transaction ".to_owned();
                push_hash(&mut text, &hash.0);
                text.append(" for block ");
                push_decimal(&mut text, *number);
                text
            },
            DataProblem::TransactionDisagreement(hash) => {
                let mut text: String = "cross-table transaction disagreement for ".to_owned();
                push_hash(&mut text, &hash.0);
                text
            },
            DataProblem::BlobGasDisagreement(hash) => {
                let mut text: String = "blob gas/hash-count disagreement for ".to_owned();
                push_hash(&mut text, &hash.0);
                text
            },
            DataProblem::DuplicateTransactionIndex(number) => {
                let mut text: String = "duplicate transaction index in block ".to_owned();
                push_decimal(&mut text, *number);
                text
            },
            DataProblem::DuplicateLogIndex(number) => {
                let mut text: String = "duplicate log index in block ".to_owned();
                push_decimal(&mut text, *number);
                text
            },
        }
    }
}

impl XatuError {
    /// What failed, in words.
    pub open spec fn spec_message(self) -> Seq<char> {
        match self {
            XatuError::PartitionKind => "Xatu table uses another partition kind"@,
            XatuError::Date => "invalid Xatu date"@,
            XatuError::Network(name) => "invalid Xatu network name: "@ + name@,
            XatuError::BlockRange => "invalid block range for Xatu partitioning"@,
            XatuError::Concurrency => "catalog concurrency must be greater than zero"@,
            XatuError::Url(words) => "Xatu URL error: "@ + words@,
            XatuError::ObjectStore(detail) => "Xatu object store error: "@ + detail@,
            XatuError::Parquet(detail) => "Xatu Parquet error: "@ + detail@,
            XatuError::Data(problem) => {
                "Xatu projected data is invalid: "@ + problem.spec_message()
            },
            XatuError::UnexpectedType { column, data_type } => {
                "Xatu projected data is invalid: "@ + column_text(column@, data_type@)
            },
            XatuError::NotBinary { data_type } => {
                "Xatu projected data is invalid: "@ + values_text(data_type@)
            },
            XatuError::UnsupportedVersion(version) => {
                "Xatu projected data is invalid: "@ + version_text(version@)
            },
            XatuError::IncompleteRange { table, range, expected, actual } => {
                "Xatu table "@ + table.spec_name()@ + " does not completely cover "@
                    + range_text(range) + ": expected "@ + decimal_digits(expected as nat)
                    + " rows, received "@ + decimal_digits(actual as nat)
            },
            XatuError::Budget { resource, actual, limit } => {
                "Xatu projection exceeded the "@ + resource@ + " budget: "@
                    + decimal_digits(actual as nat) + " > "@ + decimal_digits(limit as nat)
            },
            XatuError::Cancelled => "Xatu projection was cancelled"@,
            XatuError::Schema { table, missing } => {
                "Xatu table "@ + table.spec_name()@ + " is missing required columns: "@
                    + quoted_list(texts(missing@)) + "]"@
            },
        }
    }

    /// Tells what failed.
    pub fn message(&self) -> (text: String)
        ensures
            text@ == self.spec_message(),
    {
        match self {
            XatuError::PartitionKind => "Xatu table uses another partition kind".to_owned(),
            XatuError::Date => "invalid Xatu date".to_owned(),
            XatuError::Network(name) => {
                let mut text: String = "invalid Xatu network name: ".to_owned();
                text.append(name.as_str());
                text
            },
            XatuError::BlockRange => "invalid block range for Xatu partitioning".to_owned(),
            XatuError::Concurrency => "catalog concurrency must be greater than zero".to_owned(),
            XatuError::Url(words) => {
                let mut text: String = "Xatu URL error: ".to_owned();
                text.append(words.as_str());
                text
            },
            XatuError::ObjectStore(detail) => {
                let mut text: String = "Xatu object store error: ".to_owned();
                text.append(detail.as_str());
                text
            },
            XatuError::Parquet(detail) => {
                let mut text: String = "Xatu Parquet error: ".to_owned();
                text.append(detail.as_str());
                text
            },
            XatuError::Data(problem) => {
                let mut text: String = "Xatu projected data is invalid: ".to_owned();
                text.append(problem.message().as_str());
                text
            },
            XatuError::UnexpectedType { column, data_type } => {
                let mut text: String = "Xatu projected data is invalid: ".to_owned();
                text.append(tell_column(*column, data_type.as_str()).as_str());
                text
            },
            XatuError::NotBinary { data_type } => {
                let mut text: String = "Xatu projected data is invalid: ".to_owned();
                text.append(tell_values(data_type.as_str()).as_str());
                text
            },
            XatuError::UnsupportedVersion(version) => {
                let mut text: String = "Xatu projected data is invalid: ".to_owned();
                text.append(tell_version(version).as_str());
                text
            },
            XatuError::IncompleteRange { table, range, expected, actual } => {
                let mut text: String = "Xatu table ".to_owned();
                text.append(table.name());
                text.append(" does not completely cover ");
                push_range(&mut text, *range);
                text.append(": expected ");
                push_decimal(&mut text, *expected as u64);
                text.append(" rows, received ");
                push_decimal(&mut text, *actual as u64);
                text
            },
            XatuError::Budget { resource, actual, limit } => {
                let mut text: String = "Xatu projection exceeded the ".to_owned();
                text.append(*resource);
                text.append(" budget: ");
                push_decimal(&mut text, *actual);
                text.append(" > ");
                push_decimal(&mut text, *limit);
                text
            },
            XatuError::Cancelled => "Xatu projection was cancelled".to_owned(),
            XatuError::Schema { table, missing } => {
                let mut text: String = "Xatu table ".to_owned();
                text.append(table.name());
                text.append(" is missing required columns: ");
                push_quoted_list(&mut text, missing);
                text.append("]");
                text
            },
        }
    }
}

} // verus!
