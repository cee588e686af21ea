//! Batches of rows by column, and how their cells are read.

use crate::bytes::{
    array20, array20_at, array32, array32_at, be64, from_be64, lemma_be64_round_trip, push_bytes,
    u64_at,
};
use crate::primitives::{Address, BlockHash, Quantity, TransactionHash};
use crate::text::{find_bad_digit, first_bad_digit, hex_bytes, hex_decode, is_hex, same_text};
use crate::xatu::error::{DataProblem, XatuError};
use vstd::prelude::*;

verus! {

/// One element of a list.
#[derive(Debug)]
pub enum ListValue {
    Null,
    Binary(Vec<u8>),
    /// A value that is not binary.
    Other,
}

/// The values of one column. Unsigned integers of every width stand in one
/// form, and so do fixed, variable and textual bytes.
#[derive(Debug)]
pub enum Column {
    Unsigned(Vec<Option<u64>>),
    TimestampMillisecond(Vec<Option<i64>>),
    Boolean(Vec<Option<bool>>),
    Binary(Vec<Option<Vec<u8>>>),
    List(Vec<Option<Vec<ListValue>>>),
    /// Values of another type, and whether each is there.
    Other(Vec<bool>),
}

#[derive(Debug)]
pub struct NamedColumn {
    pub name: String,
    /// The type of the values, in words.
    pub data_type: String,
    /// The type of the elements of lists, in words.
    pub element_type: String,
    pub values: Column,
}

/// Rows of a table, by column.
#[derive(Debug)]
pub struct RowBatch {
    pub rows: usize,
    pub columns: Vec<NamedColumn>,
}

/// What a column holds in one row.
pub enum Cell {
    Null,
    Unsigned(u64),
    Timestamp(i64),
    Boolean(bool),
    Binary(Seq<u8>),
    List(Seq<ListValue>),
    Other,
}

impl Column {
    pub open spec fn spec_len(self) -> nat {
        match self {
            Column::Unsigned(values) => values@.len(),
            Column::TimestampMillisecond(values) => values@.len(),
            Column::Boolean(values) => values@.len(),
            Column::Binary(values) => values@.len(),
            Column::List(values) => values@.len(),
            Column::Other(values) => values@.len(),
        }
    }

    pub open spec fn at(self, row: int) -> Cell {
        match self {
            Column::Unsigned(values) => match values@[row] {
                Some(value) => Cell::Unsigned(value),
                None => Cell::Null,
            },
            Column::TimestampMillisecond(values) => match values@[row] {
                Some(value) => Cell::Timestamp(value),
                None => Cell::Null,
            },
            Column::Boolean(values) => match values@[row] {
                Some(value) => Cell::Boolean(value),
                None => Cell::Null,
            },
            Column::Binary(values) => match values@[row] {
                Some(value) => Cell::Binary(value@),
                None => Cell::Null,
            },
            Column::List(values) => match values@[row] {
                Some(value) => Cell::List(value@),
                None => Cell::Null,
            },
            Column::Other(values) => if values@[row] {
                Cell::Other
            } else {
                Cell::Null
            },
        }
    }

    pub fn len(&self) -> (len: usize)
        ensures
            len == self.spec_len(),
    {
        match self {
            Column::Unsigned(values) => values.len(),
            Column::TimestampMillisecond(values) => values.len(),
            Column::Boolean(values) => values.len(),
            Column::Binary(values) => values.len(),
            Column::List(values) => values.len(),
            Column::Other(values) => values.len(),
        }
    }

    /// Whether a row has no value.
    fn is_null(&self, row: usize) -> (null: bool)
        requires
            row < self.spec_len(),
        ensures
            null == (self.at(row as int) is Null),
    {
        match self {
            Column::Unsigned(values) => values[row].is_none(),
            Column::TimestampMillisecond(values) => values[row].is_none(),
            Column::Boolean(values) => values[row].is_none(),
            Column::Binary(values) => values[row].is_none(),
            Column::List(values) => values[row].is_none(),
            Column::Other(values) => !values[row],
        }
    }

    /// The bytes of a row, as far as there are any.
    fn binary(&self, name: &'static str, row: usize) -> (outcome: Result<&Vec<u8>, DataProblem>)
        requires
            row < self.spec_len(),
        ensures
            match outcome {
                Ok(bytes) => binary_of(self.at(row as int), name, row) == Ok::<
                    Seq<u8>,
                    DataProblem,
                >(bytes@),
                Err(problem) => binary_of(self.at(row as int), name, row) == Err::<
                    Seq<u8>,
                    DataProblem,
                >(problem),
            },
    {
        if self.is_null(row) {
            return Err(DataProblem::NullBinary { row });
        }
        match self {
            Column::Binary(values) => match &values[row] {
                Some(bytes) => Ok(bytes),
                None => Err(DataProblem::NullBinary { row }),
            },
            _ => Err(DataProblem::NotBinary { column: name, element: false }),
        }
    }
}

/// The bytes of a cell.
pub open spec fn binary_of(cell: Cell, name: &'static str, row: usize) -> Result<
    Seq<u8>,
    DataProblem,
> {
    match cell {
        Cell::Null => Err(DataProblem::NullBinary { row }),
        Cell::Binary(bytes) => Ok(bytes),
        _ => Err(DataProblem::NotBinary { column: name, element: false }),
    }
}

/// Text that is marked as hexadecimal.
pub open spec fn is_prefixed(bytes: Seq<u8>) -> bool {
    bytes.len() >= 2 && bytes[0] == 0x30 && bytes[1] == 0x78
}

/// What is wrong with digits that are not all hexadecimal: the first that is
/// not.
pub open spec fn hex_problem(
    digits: Seq<u8>,
    column: &'static str,
    element: Option<usize>,
    row: usize,
) -> DataProblem {
    let position = first_bad_digit(digits, 0)->0;
    DataProblem::InvalidHex {
        column,
        element,
        row,
        byte: digits[position],
        position: position as usize,
    }
}

/// The bytes of a value of fixed size, raw or as prefixed hexadecimal.
pub open spec fn fixed_of(
    bytes: Seq<u8>,
    size: nat,
    column: &'static str,
    element: Option<usize>,
    row: usize,
) -> Result<Seq<u8>, DataProblem> {
    if bytes.len() == size {
        Ok(bytes)
    } else if bytes.len() == size * 2 + 2 && is_prefixed(bytes) {
        if is_hex(bytes.skip(2)) {
            Ok(hex_bytes(bytes.skip(2)))
        } else {
            Err(hex_problem(bytes.skip(2), column, element, row))
        }
    } else {
        Err(
            DataProblem::ByteLength {
                column,
                element,
                row,
                length: bytes.len() as usize,
                expected: size as usize,
            },
        )
    }
}

/// The bytes of a value of any size, raw or as prefixed hexadecimal.
pub open spec fn variable_of(bytes: Seq<u8>, column: &'static str, row: usize) -> Result<
    Seq<u8>,
    DataProblem,
> {
    if is_prefixed(bytes) {
        if bytes.len() % 2 != 0 {
            Err(DataProblem::OddHex { column, row })
        } else if is_hex(bytes.skip(2)) {
            Ok(hex_bytes(bytes.skip(2)))
        } else {
            Err(hex_problem(bytes.skip(2), column, None, row))
        }
    } else {
        Ok(bytes)
    }
}

fn prefixed(bytes: &Vec<u8>) -> (found: bool)
    ensures
        found == is_prefixed(bytes@),
{
    bytes.len() >= 2 && bytes[0] == 0x30 && bytes[1] == 0x78
}

fn without_prefix(bytes: &Vec<u8>) -> (rest: Vec<u8>)
    requires
        bytes@.len() >= 2,
    ensures
        rest@ == bytes@.skip(2),
{
    let mut rest: Vec<u8> = Vec::new();
    let mut index: usize = 2;
    while index < bytes.len()
        invariant
            2 <= index <= bytes@.len(),
            rest@ == bytes@.subrange(2, index as int),
        decreases bytes@.len() - index,
    {
        rest.push(bytes[index]);
        assert(rest@ =~= bytes@.subrange(2, index + 1));
        index += 1;
    }
    assert(bytes@.subrange(2, index as int) =~= bytes@.skip(2));
    rest
}

fn copy_bytes(bytes: &Vec<u8>) -> (copy: Vec<u8>)
    ensures
        copy@ == bytes@,
{
    let mut copy: Vec<u8> = Vec::new();
    push_bytes(&mut copy, bytes.as_slice());
    assert(copy@ =~= bytes@);
    copy
}

/// Decodes hexadecimal digits, or tells the first that is none.
fn decode_digits(
    digits: Vec<u8>,
    column: &'static str,
    element: Option<usize>,
    row: usize,
) -> (outcome: Result<Vec<u8>, DataProblem>)
    requires
        digits@.len() % 2 == 0,
    ensures
        match outcome {
            Ok(value) => is_hex(digits@) && value@ == hex_bytes(digits@),
            Err(problem) => !is_hex(digits@) && problem == hex_problem(
                digits@,
                column,
                element,
                row,
            ),
        },
{
    match hex_decode(digits.as_slice()) {
        Ok(value) => Ok(value),
        Err(_) => {
            let position: usize = match find_bad_digit(digits.as_slice()) {
                Some(position) => position,
                None => 0,
            };
            let byte: u8 = if position < digits.len() {
                digits[position]
            } else {
                0
            };
            Err(DataProblem::InvalidHex { column, element, row, byte, position })
        },
    }
}

/// Decodes a value of fixed size, which may be an element of a list.
pub fn decode_fixed_bytes(
    bytes: &Vec<u8>,
    size: usize,
    column: &'static str,
    element: Option<usize>,
    row: usize,
) -> (outcome: Result<Vec<u8>, DataProblem>)
    requires
        size * 2 + 2 <= usize::MAX,
    ensures
        match outcome {
            Ok(value) => {
                &&& fixed_of(bytes@, size as nat, column, element, row) == Ok::<
                    Seq<u8>,
                    DataProblem,
                >(value@)
                &&& value@.len() == size
            },
            Err(problem) => fixed_of(bytes@, size as nat, column, element, row) == Err::<
                Seq<u8>,
                DataProblem,
            >(problem),
        },
{
    if bytes.len() == size {
        return Ok(copy_bytes(bytes));
    }
    if bytes.len() == size * 2 + 2 && prefixed(bytes) {
        return decode_digits(without_prefix(bytes), column, element, row);
    }
    Err(DataProblem::ByteLength { column, element, row, length: bytes.len(), expected: size })
}

/// Decodes a value of any size.
pub fn decode_variable_bytes(bytes: &Vec<u8>, column: &'static str, row: usize) -> (outcome: Result<
    Vec<u8>,
    DataProblem,
>)
    ensures
        match outcome {
            Ok(value) => variable_of(bytes@, column, row) == Ok::<Seq<u8>, DataProblem>(value@),
            Err(problem) => variable_of(bytes@, column, row) == Err::<Seq<u8>, DataProblem>(
                problem,
            ),
        },
{
    if prefixed(bytes) {
        if bytes.len() % 2 != 0 {
            return Err(DataProblem::OddHex { column, row });
        }
        return decode_digits(without_prefix(bytes), column, None, row);
    }
    Ok(copy_bytes(bytes))
}

/// The big-endian form of a little-endian number of up to 32 bytes.
pub open spec fn big_endian(bytes: Seq<u8>) -> Seq<u8> {
    Seq::new(
        32,
        |i: int|
            if i < 32 - bytes.len() {
                0u8
            } else {
                bytes[31 - i]
            },
    )
}

fn quantity_of_little_endian(bytes: &Vec<u8>) -> (quantity: Quantity)
    requires
        bytes@.len() <= 32,
    ensures
        quantity == Quantity(array32(big_endian(bytes@))),
        quantity.0@ == big_endian(bytes@),
{
    let mut reversed: Vec<u8> = Vec::new();
    let mut index: usize = 0;
    while index < 32
        invariant
            index <= 32,
            bytes@.len() <= 32,
            reversed@ == big_endian(bytes@).take(index as int),
        decreases 32 - index,
    {
        if index < 32 - bytes.len() {
            reversed.push(0);
        } else {
            reversed.push(bytes[31 - index]);
        }
        assert(reversed@ =~= big_endian(bytes@).take(index + 1));
        index += 1;
    }
    proof {
        assert(reversed@ =~= big_endian(bytes@));
        assert(reversed@.subrange(0, 32) =~= reversed@);
    }
    Quantity(array32_at(reversed.as_slice(), 0))
}

/// A quantity whose high bytes are all zero.
pub open spec fn fits_u64(quantity: Quantity) -> bool {
    forall|i: int| 0 <= i < 24 ==> #[trigger] quantity.0@[i] == 0
}

/// The number of a quantity, where it fits.
pub open spec fn u64_of(quantity: Quantity) -> Option<u64> {
    if fits_u64(quantity) {
        Some(from_be64(quantity.0@.subrange(24, 32)))
    } else {
        None
    }
}

pub fn quantity_to_u64(quantity: Quantity) -> (value: Option<u64>)
    ensures
        value == u64_of(quantity),
{
    let mut index: usize = 0;
    while index < 24
        invariant
            index <= 24,
            forall|i: int| 0 <= i < index ==> #[trigger] quantity.0@[i] == 0,
        decreases 24 - index,
    {
        if quantity.0[index] != 0 {
            assert(quantity.0@[index as int] != 0);
            return None;
        }
        index += 1;
    }
    Some(u64_at(&quantity.0, 24))
}

pub fn quantity_from_u64(value: u64) -> (quantity: Quantity)
    ensures
        quantity == Quantity::spec_of(value),
        u64_of(quantity) == Some(value),
{
    let quantity: Quantity = Quantity::of(value);
    proof {
        law_quantity_round_trip(value, quantity);
    }
    quantity
}

/// The quantity of a number reads back as that number.
pub proof fn law_quantity_round_trip(value: u64, quantity: Quantity)
    requires
        quantity.0@ == Seq::new(24, |i: int| 0u8) + be64(value),
    ensures
        u64_of(quantity) == Some(value),
{
    lemma_be64_round_trip(value);
    assert(quantity.0@.subrange(24, 32) =~= be64(value));
}

/// Little-endian bytes of a number, with any zeros after them, become its
/// canonical big-endian form.
pub proof fn law_little_endian_becomes_big_endian(value: u64, zeros: nat)
    requires
        zeros <= 24,
    ensures
        big_endian(be64(value).reverse() + Seq::new(zeros, |i: int| 0u8)) == Seq::new(
            24,
            |i: int| 0u8,
        ) + be64(value),
{
    assert(big_endian(be64(value).reverse() + Seq::new(zeros, |i: int| 0u8)) =~= Seq::new(
        24,
        |i: int| 0u8,
    ) + be64(value));
}

impl RowBatch {
    /// Every column has a value for every row.
    pub open spec fn wf(self) -> bool {
        forall|i: int|
            0 <= i < self.columns@.len() ==> (#[trigger] self.columns@[i]).values.spec_len()
                == self.rows
    }

    /// Gathers columns that have one value for every row each.
    pub fn new(rows: usize, columns: Vec<NamedColumn>) -> (batch: Option<RowBatch>)
        ensures
            match batch {
                Some(batch) => batch.wf() && batch.rows == rows && batch.columns == columns,
                None => exists|i: int|
                    0 <= i < columns@.len() && (#[trigger] columns@[i]).values.spec_len() != rows,
            },
    {
        let mut index: usize = 0;
        while index < columns.len()
            invariant
                index <= columns@.len(),
                forall|i: int|
                    0 <= i < index ==> (#[trigger] columns@[i]).values.spec_len() == rows,
            decreases columns@.len() - index,
        {
            if columns[index].values.len() != rows {
                return None;
            }
            index += 1;
        }
        Some(RowBatch { rows, columns })
    }

    /// The first column of a name, from `from` on.
    pub open spec fn column_from(self, name: Seq<char>, from: int) -> Option<int>
        decreases self.columns@.len() - from,
    {
        if from < 0 || from >= self.columns@.len() {
            None
        } else if self.columns@[from].name@ == name {
            Some(from)
        } else {
            self.column_from(name, from + 1)
        }
    }

    /// What a column holds in a row.
    pub open spec fn cell(self, name: &'static str, row: usize) -> Result<Cell, DataProblem> {
        match self.column_from(name@, 0) {
            Some(at) => Ok(self.columns@[at].values.at(row as int)),
            None => Err(DataProblem::MissingColumn(name)),
        }
    }

    fn find_column(&self, name: &str) -> (at: Option<usize>)
        ensures
            match at {
                Some(at) => at < self.columns@.len() && self.column_from(name@, 0) == Some(
                    at as int,
                ),
                None => self.column_from(name@, 0) is None,
            },
    {
        let mut index: usize = 0;
        while index < self.columns.len()
            invariant
                index <= self.columns@.len(),
                self.column_from(name@, 0) == self.column_from(name@, index as int),
            decreases self.columns@.len() - index,
        {
            if same_text(self.columns[index].name.as_str(), name) {
                return Some(index);
            }
            index += 1;
        }
        None
    }

    fn column(&self, name: &'static str) -> (outcome: Result<&Column, DataProblem>)
        requires
            self.wf(),
        ensures
            match outcome {
                Ok(column) => {
                    &&& column.spec_len() == self.rows
                    &&& forall|row: usize| #[trigger]
                        self.cell(name, row) == Ok::<Cell, DataProblem>(column.at(row as int))
                },
                Err(problem) => {
                    &&& problem == DataProblem::MissingColumn(name)
                    &&& forall|row: usize| #[trigger]
                        self.cell(name, row) == Err::<Cell, DataProblem>(problem)
                },
            },
    {
        match self.find_column(name) {
            Some(at) => Ok(&self.columns[at].values),
            None => Err(DataProblem::MissingColumn(name)),
        }
    }

    /// The error that a problem of reading a row is told as: with the type of
    /// the column, or the version, that is at fault.
    pub open spec fn is_row_error(self, problem: DataProblem, error: XatuError) -> bool {
        match problem {
            DataProblem::UnexpectedType { column } => match self.column_from(column@, 0) {
                Some(at) => error == (XatuError::UnexpectedType {
                    column,
                    data_type: self.columns@[at].data_type,
                }),
                None => error == XatuError::Data(problem),
            },
            DataProblem::NotBinary { column, element } => match self.column_from(column@, 0) {
                Some(at) => error == (XatuError::NotBinary {
                    data_type: if element {
                        self.columns@[at].element_type
                    } else {
                        self.columns@[at].data_type
                    },
                }),
                None => error == XatuError::Data(problem),
            },
            DataProblem::UnsupportedVersion { column, row } => match self.bytes_at(column, row) {
                Ok(bytes) if row < self.rows => error matches XatuError::UnsupportedVersion(version)
                    && version@ == bytes,
                _ => error == XatuError::Data(problem),
            },
            _ => error == XatuError::Data(problem),
        }
    }

    /// Tells a problem of reading a row with what is at fault.
    pub fn row_error(&self, problem: DataProblem) -> (error: XatuError)
        requires
            self.wf(),
        ensures
            self.is_row_error(problem, error),
    {
        match problem {
            DataProblem::UnexpectedType { column } => match self.find_column(column) {
                Some(at) => XatuError::UnexpectedType {
                    column,
                    data_type: self.columns[at].data_type.clone(),
                },
                None => XatuError::Data(problem),
            },
            DataProblem::NotBinary { column, element } => match self.find_column(column) {
                Some(at) => XatuError::NotBinary {
                    data_type: if element {
                        self.columns[at].element_type.clone()
                    } else {
                        self.columns[at].data_type.clone()
                    },
                },
                None => XatuError::Data(problem),
            },
            DataProblem::UnsupportedVersion { column, row } => {
                if row >= self.rows {
                    return XatuError::Data(problem);
                }
                match self.required_bytes(column, row) {
                    Ok(bytes) => XatuError::UnsupportedVersion(copy_bytes(bytes)),
                    Err(_) => XatuError::Data(problem),
                }
            },
            _ => XatuError::Data(problem),
        }
    }

    pub open spec fn optional_u64_at(self, name: &'static str, row: usize) -> Result<
        Option<u64>,
        DataProblem,
    > {
        match self.cell(name, row) {
            Ok(Cell::Null) => Ok(None),
            Ok(Cell::Unsigned(value)) => Ok(Some(value)),
            Ok(_) => Err(DataProblem::UnexpectedType { column: name }),
            Err(problem) => Err(problem),
        }
    }

    pub fn optional_u64(&self, name: &'static str, row: usize) -> (outcome: Result<
        Option<u64>,
        DataProblem,
    >)
        requires
            self.wf(),
            row < self.rows,
        ensures
            outcome == self.optional_u64_at(name, row),
    {
        let column: &Column = self.column(name)?;
        assert(self.cell(name, row) == Ok::<Cell, DataProblem>(column.at(row as int)));
        if column.is_null(row) {
            return Ok(None);
        }
        match column {
            Column::Unsigned(values) => Ok(values[row]),
            _ => Err(DataProblem::UnexpectedType { column: name }),
        }
    }

    pub open spec fn u64_at(self, name: &'static str, row: usize) -> Result<u64, DataProblem> {
        match self.optional_u64_at(name, row) {
            Ok(Some(value)) => Ok(value),
            Ok(None) => Err(DataProblem::Null { column: name, row }),
            Err(problem) => Err(problem),
        }
    }

    pub fn required_u64(&self, name: &'static str, row: usize) -> (outcome: Result<u64, DataProblem>)
        requires
            self.wf(),
            row < self.rows,
        ensures
            outcome == self.u64_at(name, row),
    {
        match self.optional_u64(name, row)? {
            Some(value) => Ok(value),
            None => Err(DataProblem::Null { column: name, row }),
        }
    }

    pub open spec fn u32_at(self, name: &'static str, row: usize) -> Result<u32, DataProblem> {
        match self.u64_at(name, row) {
            Ok(value) => if value <= u32::MAX {
                Ok(value as u32)
            } else {
                Err(DataProblem::Overflow { column: name, width: "u32", row })
            },
            Err(problem) => Err(problem),
        }
    }

    pub fn required_u32(&self, name: &'static str, row: usize) -> (outcome: Result<u32, DataProblem>)
        requires
            self.wf(),
            row < self.rows,
        ensures
            outcome == self.u32_at(name, row),
    {
        let value: u64 = self.required_u64(name, row)?;
        if value <= 0xffff_ffff {
            Ok(value as u32)
        } else {
            Err(DataProblem::Overflow { column: name, width: "u32", row })
        }
    }

    pub open spec fn u8_at(self, name: &'static str, row: usize) -> Result<u8, DataProblem> {
        match self.u64_at(name, row) {
            Ok(value) => if value <= u8::MAX {
                Ok(value as u8)
            } else {
                Err(DataProblem::Overflow { column: name, width: "u8", row })
            },
            Err(problem) => Err(problem),
        }
    }

    pub fn required_u8(&self, name: &'static str, row: usize) -> (outcome: Result<u8, DataProblem>)
        requires
            self.wf(),
            row < self.rows,
        ensures
            outcome == self.u8_at(name, row),
    {
        let value: u64 = self.required_u64(name, row)?;
        if value <= 0xff {
            Ok(value as u8)
        } else {
            Err(DataProblem::Overflow { column: name, width: "u8", row })
        }
    }

    pub open spec fn i64_at(self, name: &'static str, row: usize) -> Result<i64, DataProblem> {
        match self.cell(name, row) {
            Ok(Cell::Null) => Err(DataProblem::Null { column: name, row }),
            Ok(Cell::Timestamp(value)) => Ok(value),
            Ok(_) => Err(DataProblem::UnexpectedType { column: name }),
            Err(problem) => Err(problem),
        }
    }

    pub fn required_i64(&self, name: &'static str, row: usize) -> (outcome: Result<i64, DataProblem>)
        requires
            self.wf(),
            row < self.rows,
        ensures
            outcome == self.i64_at(name, row),
    {
        let column: &Column = self.column(name)?;
        assert(self.cell(name, row) == Ok::<Cell, DataProblem>(column.at(row as int)));
        if column.is_null(row) {
            return Err(DataProblem::Null { column: name, row });
        }
        match column {
            Column::TimestampMillisecond(values) => match values[row] {
                Some(value) => Ok(value),
                None => Err(DataProblem::Null { column: name, row }),
            },
            _ => Err(DataProblem::UnexpectedType { column: name }),
        }
    }

    pub open spec fn bool_at(self, name: &'static str, row: usize) -> Result<bool, DataProblem> {
        match self.cell(name, row) {
            Ok(Cell::Null) => Err(DataProblem::Null { column: name, row }),
            Ok(Cell::Boolean(value)) => Ok(value),
            Ok(_) => Err(DataProblem::UnexpectedType { column: name }),
            Err(problem) => Err(problem),
        }
    }

    pub fn required_bool(&self, name: &'static str, row: usize) -> (outcome: Result<
        bool,
        DataProblem,
    >)
        requires
            self.wf(),
            row < self.rows,
        ensures
            outcome == self.bool_at(name, row),
    {
        let column: &Column = self.column(name)?;
        assert(self.cell(name, row) == Ok::<Cell, DataProblem>(column.at(row as int)));
        if column.is_null(row) {
            return Err(DataProblem::Null { column: name, row });
        }
        match column {
            Column::Boolean(values) => match values[row] {
                Some(value) => Ok(value),
                None => Err(DataProblem::Null { column: name, row }),
            },
            _ => Err(DataProblem::UnexpectedType { column: name }),
        }
    }

    /// The raw bytes of a row.
    pub open spec fn bytes_at(self, name: &'static str, row: usize) -> Result<Seq<u8>, DataProblem> {
        match self.cell(name, row) {
            Ok(cell) => binary_of(cell, name, row),
            Err(problem) => Err(problem),
        }
    }

    pub fn required_bytes(&self, name: &'static str, row: usize) -> (outcome: Result<
        &Vec<u8>,
        DataProblem,
    >)
        requires
            self.wf(),
            row < self.rows,
        ensures
            match outcome {
                Ok(bytes) => self.bytes_at(name, row) == Ok::<Seq<u8>, DataProblem>(bytes@),
                Err(problem) => self.bytes_at(name, row) == Err::<Seq<u8>, DataProblem>(problem),
            },
    {
        let column: &Column = self.column(name)?;
        assert(self.cell(name, row) == Ok::<Cell, DataProblem>(column.at(row as int)));
        column.binary(name, row)
    }

    /// The bytes of a value of fixed size.
    pub open spec fn fixed_at(self, name: &'static str, size: nat, row: usize) -> Result<
        Seq<u8>,
        DataProblem,
    > {
        match self.bytes_at(name, row) {
            Ok(bytes) => fixed_of(bytes, size, name, None, row),
            Err(problem) => Err(problem),
        }
    }

    pub open spec fn hash_at(self, name: &'static str, row: usize) -> Result<
        BlockHash,
        DataProblem,
    > {
        match self.fixed_at(name, 32, row) {
            Ok(bytes) => Ok(BlockHash(array32(bytes))),
            Err(problem) => Err(problem),
        }
    }

    fn fixed32(&self, name: &'static str, row: usize) -> (outcome: Result<[u8; 32], DataProblem>)
        requires
            self.wf(),
            row < self.rows,
        ensures
            match outcome {
                Ok(value) => {
                    &&& self.fixed_at(name, 32, row) == Ok::<Seq<u8>, DataProblem>(value@)
                    &&& value == array32(value@)
                },
                Err(problem) => self.fixed_at(name, 32, row) == Err::<Seq<u8>, DataProblem>(
                    problem,
                ),
            },
    {
        let bytes: &Vec<u8> = self.required_bytes(name, row)?;
        let value: Vec<u8> = decode_fixed_bytes(bytes, 32, name, None, row)?;
        assert(value@.subrange(0, 32) =~= value@);
        Ok(array32_at(value.as_slice(), 0))
    }

    pub fn required_hash(&self, name: &'static str, row: usize) -> (outcome: Result<
        BlockHash,
        DataProblem,
    >)
        requires
            self.wf(),
            row < self.rows,
        ensures
            outcome == self.hash_at(name, row),
    {
        Ok(BlockHash(self.fixed32(name, row)?))
    }

    pub open spec fn transaction_hash_at(self, name: &'static str, row: usize) -> Result<
        TransactionHash,
        DataProblem,
    > {
        match self.fixed_at(name, 32, row) {
            Ok(bytes) => Ok(TransactionHash(array32(bytes))),
            Err(problem) => Err(problem),
        }
    }

    pub fn required_transaction_hash(&self, name: &'static str, row: usize) -> (outcome: Result<
        TransactionHash,
        DataProblem,
    >)
        requires
            self.wf(),
            row < self.rows,
        ensures
            outcome == self.transaction_hash_at(name, row),
    {
        Ok(TransactionHash(self.fixed32(name, row)?))
    }

    /// A topic, which must be there.
    pub open spec fn topic_at(self, name: &'static str, row: usize) -> Result<
        [u8; 32],
        DataProblem,
    > {
        match self.fixed_at(name, 32, row) {
            Ok(bytes) => Ok(array32(bytes)),
            Err(problem) => Err(problem),
        }
    }

    pub fn required_topic(&self, name: &'static str, row: usize) -> (outcome: Result<
        [u8; 32],
        DataProblem,
    >)
        requires
            self.wf(),
            row < self.rows,
        ensures
            outcome == self.topic_at(name, row),
    {
        self.fixed32(name, row)
    }

    /// A topic that need not be there.
    pub open spec fn optional_topic_at(self, name: &'static str, row: usize) -> Result<
        Option<[u8; 32]>,
        DataProblem,
    > {
        match self.cell(name, row) {
            Ok(Cell::Null) => Ok(None),
            _ => match self.topic_at(name, row) {
                Ok(topic) => Ok(Some(topic)),
                Err(problem) => Err(problem),
            },
        }
    }

    pub fn optional_topic(&self, name: &'static str, row: usize) -> (outcome: Result<
        Option<[u8; 32]>,
        DataProblem,
    >)
        requires
            self.wf(),
            row < self.rows,
        ensures
            outcome == self.optional_topic_at(name, row),
    {
        let column: &Column = self.column(name)?;
        assert(self.cell(name, row) == Ok::<Cell, DataProblem>(column.at(row as int)));
        if column.is_null(row) {
            return Ok(None);
        }
        Ok(Some(self.fixed32(name, row)?))
    }

    pub open spec fn address_at(self, name: &'static str, row: usize) -> Result<
        Address,
        DataProblem,
    > {
        match self.fixed_at(name, 20, row) {
            Ok(bytes) => Ok(Address(array20(bytes))),
            Err(problem) => Err(problem),
        }
    }

    pub fn required_address(&self, name: &'static str, row: usize) -> (outcome: Result<
        Address,
        DataProblem,
    >)
        requires
            self.wf(),
            row < self.rows,
        ensures
            outcome == self.address_at(name, row),
    {
        let bytes: &Vec<u8> = self.required_bytes(name, row)?;
        let value: Vec<u8> = decode_fixed_bytes(bytes, 20, name, None, row)?;
        assert(value@.subrange(0, 20) =~= value@);
        Ok(Address(array20_at(value.as_slice(), 0)))
    }

    pub open spec fn optional_address_at(self, name: &'static str, row: usize) -> Result<
        Option<Address>,
        DataProblem,
    > {
        match self.cell(name, row) {
            Ok(Cell::Null) => Ok(None),
            _ => match self.address_at(name, row) {
                Ok(address) => Ok(Some(address)),
                Err(problem) => Err(problem),
            },
        }
    }

    pub fn optional_address(&self, name: &'static str, row: usize) -> (outcome: Result<
        Option<Address>,
        DataProblem,
    >)
        requires
            self.wf(),
            row < self.rows,
        ensures
            outcome == self.optional_address_at(name, row),
    {
        let column: &Column = self.column(name)?;
        assert(self.cell(name, row) == Ok::<Cell, DataProblem>(column.at(row as int)));
        if column.is_null(row) {
            return Ok(None);
        }
        Ok(Some(self.required_address(name, row)?))
    }

    /// A little-endian number of up to 32 bytes.
    pub open spec fn quantity_le_at(self, name: &'static str, row: usize) -> Result<
        Quantity,
        DataProblem,
    > {
        match self.bytes_at(name, row) {
            Ok(bytes) => if 1 <= bytes.len() <= 32 {
                Ok(Quantity(array32(big_endian(bytes))))
            } else {
                Err(
                    DataProblem::QuantityLength { column: name, length: bytes.len() as usize, row },
                )
            },
            Err(problem) => Err(problem),
        }
    }

    pub fn required_quantity_le(&self, name: &'static str, row: usize) -> (outcome: Result<
        Quantity,
        DataProblem,
    >)
        requires
            self.wf(),
            row < self.rows,
        ensures
            outcome == self.quantity_le_at(name, row),
    {
        let bytes: &Vec<u8> = self.required_bytes(name, row)?;
        if bytes.len() == 0 || bytes.len() > 32 {
            return Err(DataProblem::QuantityLength { column: name, length: bytes.len(), row });
        }
        Ok(quantity_of_little_endian(bytes))
    }

    /// A number, as an unsigned integer or in little-endian bytes.
    pub open spec fn quantity_at(self, name: &'static str, row: usize) -> Result<
        Quantity,
        DataProblem,
    > {
        match self.cell(name, row) {
            Ok(Cell::Null) => Err(DataProblem::Null { column: name, row }),
            Ok(Cell::Unsigned(value)) => Ok(Quantity::spec_of(value)),
            _ => self.quantity_le_at(name, row),
        }
    }

    /// Decodes unsigned integer columns across the public representations:
    /// older exports have integers of up to eight bytes, current ones bytes
    /// in little-endian order. Either is exact, so neither is narrowed.
    pub fn required_quantity_compatible(&self, name: &'static str, row: usize) -> (outcome: Result<
        Quantity,
        DataProblem,
    >)
        requires
            self.wf(),
            row < self.rows,
        ensures
            outcome == self.quantity_at(name, row),
    {
        let column: &Column = self.column(name)?;
        assert(self.cell(name, row) == Ok::<Cell, DataProblem>(column.at(row as int)));
        if column.is_null(row) {
            return Err(DataProblem::Null { column: name, row });
        }
        if let Column::Unsigned(values) = column {
            if let Some(value) = values[row] {
                return Ok(Quantity::of(value));
            }
        }
        self.required_quantity_le(name, row)
    }

    pub open spec fn quantity_u64_at(self, name: &'static str, row: usize) -> Result<
        u64,
        DataProblem,
    > {
        match self.quantity_le_at(name, row) {
            Ok(quantity) => match u64_of(quantity) {
                Some(value) => Ok(value),
                None => Err(DataProblem::Overflow { column: name, width: "u64", row }),
            },
            Err(problem) => Err(problem),
        }
    }

    pub fn required_quantity_u64_le(&self, name: &'static str, row: usize) -> (outcome: Result<
        u64,
        DataProblem,
    >)
        requires
            self.wf(),
            row < self.rows,
        ensures
            outcome == self.quantity_u64_at(name, row),
    {
        match quantity_to_u64(self.required_quantity_le(name, row)?) {
            Some(value) => Ok(value),
            None => Err(DataProblem::Overflow { column: name, width: "u64", row }),
        }
    }

    /// Bytes of any size that need not be there.
    pub open spec fn optional_variable_at(self, name: &'static str, row: usize) -> Result<
        Option<Seq<u8>>,
        DataProblem,
    > {
        match self.cell(name, row) {
            Ok(Cell::Null) => Ok(None),
            _ => match self.bytes_at(name, row) {
                Ok(bytes) => match variable_of(bytes, name, row) {
                    Ok(value) => Ok(Some(value)),
                    Err(problem) => Err(problem),
                },
                Err(problem) => Err(problem),
            },
        }
    }

    pub fn optional_variable_bytes(&self, name: &'static str, row: usize) -> (outcome: Result<
        Option<Vec<u8>>,
        DataProblem,
    >)
        requires
            self.wf(),
            row < self.rows,
        ensures
            match outcome {
                Ok(Some(value)) => self.optional_variable_at(name, row) == Ok::<
                    Option<Seq<u8>>,
                    DataProblem,
                >(Some(value@)),
                Ok(None) => self.optional_variable_at(name, row) == Ok::<
                    Option<Seq<u8>>,
                    DataProblem,
                >(None),
                Err(problem) => self.optional_variable_at(name, row) == Err::<
                    Option<Seq<u8>>,
                    DataProblem,
                >(problem),
            },
    {
        let column: &Column = self.column(name)?;
        assert(self.cell(name, row) == Ok::<Cell, DataProblem>(column.at(row as int)));
        if column.is_null(row) {
            return Ok(None);
        }
        let bytes: &Vec<u8> = column.binary(name, row)?;
        Ok(Some(decode_variable_bytes(bytes, name, row)?))
    }

    /// The hashes among the first `count` elements of a list.
    pub open spec fn hashes_of(
        elements: Seq<ListValue>,
        count: int,
        name: &'static str,
        row: usize,
    ) -> Result<Seq<BlockHash>, DataProblem>
        decreases count,
    {
        if count <= 0 {
            Ok(Seq::empty())
        } else {
            match RowBatch::hashes_of(elements, count - 1, name, row) {
                Ok(before) => match elements[count - 1] {
                    ListValue::Null => Err(DataProblem::NullBinary { row: (count - 1) as usize }),
                    ListValue::Other => Err(DataProblem::NotBinary { column: name, element: true }),
                    ListValue::Binary(bytes) => match fixed_of(
                        bytes@,
                        32,
                        name,
                        Some((count - 1) as usize),
                        row,
                    ) {
                        Ok(value) => Ok(before.push(BlockHash(array32(value)))),
                        Err(problem) => Err(problem),
                    },
                },
                Err(problem) => Err(problem),
            }
        }
    }

    /// The hashes of a list. There are none where there is no list.
    pub open spec fn hash_list_at(self, name: &'static str, row: usize) -> Result<
        Seq<BlockHash>,
        DataProblem,
    > {
        match self.cell(name, row) {
            Ok(Cell::Null) => Ok(Seq::empty()),
            Ok(Cell::List(elements)) => RowBatch::hashes_of(
                elements,
                elements.len() as int,
                name,
                row,
            ),
            Ok(_) => Err(DataProblem::UnexpectedType { column: name }),
            Err(problem) => Err(problem),
        }
    }

    pub fn required_hash_list(&self, name: &'static str, row: usize) -> (outcome: Result<
        Vec<BlockHash>,
        DataProblem,
    >)
        requires
            self.wf(),
            row < self.rows,
        ensures
            match outcome {
                Ok(hashes) => self.hash_list_at(name, row) == Ok::<Seq<BlockHash>, DataProblem>(
                    hashes@,
                ),
                Err(problem) => self.hash_list_at(name, row) == Err::<Seq<BlockHash>, DataProblem>(
                    problem,
                ),
            },
    {
        let column: &Column = self.column(name)?;
        assert(self.cell(name, row) == Ok::<Cell, DataProblem>(column.at(row as int)));
        if column.is_null(row) {
            return Ok(Vec::new());
        }
        match column {
            Column::List(values) => match &values[row] {
                Some(elements) => hash_list(elements, name, row),
                None => Ok(Vec::new()),
            },
            _ => Err(DataProblem::UnexpectedType { column: name }),
        }
    }
}

proof fn lemma_hashes_fail(elements: Seq<ListValue>, from: int, to: int, name: &'static str, row: usize)
    requires
        0 <= from <= to,
        RowBatch::hashes_of(elements, from, name, row) is Err,
    ensures
        RowBatch::hashes_of(elements, to, name, row) == RowBatch::hashes_of(
            elements,
            from,
            name,
            row,
        ),
    decreases to - from,
{
    if from < to {
        lemma_hashes_fail(elements, from, to - 1, name, row);
    }
}

fn hash_list(elements: &Vec<ListValue>, name: &'static str, row: usize) -> (outcome: Result<
    Vec<BlockHash>,
    DataProblem,
>)
    ensures
        match outcome {
            Ok(hashes) => RowBatch::hashes_of(elements@, elements@.len() as int, name, row) == Ok::<
                Seq<BlockHash>,
                DataProblem,
            >(hashes@),
            Err(problem) => RowBatch::hashes_of(elements@, elements@.len() as int, name, row)
                == Err::<Seq<BlockHash>, DataProblem>(problem),
        },
{
    let mut hashes: Vec<BlockHash> = Vec::new();
    let mut index: usize = 0;
    while index < elements.len()
        invariant
            index <= elements@.len(),
            RowBatch::hashes_of(elements@, index as int, name, row) == Ok::<
                Seq<BlockHash>,
                DataProblem,
            >(hashes@),
        decreases elements@.len() - index,
    {
        let ghost all = elements@;
        match &elements[index] {
            ListValue::Null => {
                proof {
                    lemma_hashes_fail(all, index + 1, all.len() as int, name, row);
                }
                return Err(DataProblem::NullBinary { row: index });
            },
            ListValue::Other => {
                proof {
                    lemma_hashes_fail(all, index + 1, all.len() as int, name, row);
                }
                return Err(DataProblem::NotBinary { column: name, element: true });
            },
            ListValue::Binary(bytes) => {
                match decode_fixed_bytes(bytes, 32, name, Some(index), row) {
                    Ok(value) => {
                        assert(value@.subrange(0, 32) =~= value@);
                        hashes.push(BlockHash(array32_at(value.as_slice(), 0)));
                    },
                    Err(problem) => {
                        proof {
                            lemma_hashes_fail(all, index + 1, all.len() as int, name, row);
                        }
                        return Err(problem);
                    },
                }
            },
        }
        index += 1;
    }
    Ok(hashes)
}

} // verus!
