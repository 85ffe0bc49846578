//! The rows of a table and their decoding from the binary stream.

use vstd::prelude::*;
use vstd::slice::{slice_subrange, slice_to_vec};
use crate::error::{cannot_parse, outcome, Error, ErrorView};
use crate::schema::{DataType, Field, FieldView, NullableDataValue};
use crate::wire::{
    be_i16_at, be_i32_at, be_i64_at, be_u32_at, be_u64_at, c_string, find_text_end, i16_at,
    i32_at, i64_at, u32_at, u64_at,
};

verus! {

/// One cell of a row: the elements of one column, in the variant of the
/// column's datatype. Floating-point elements are held by their IEEE 754 bit
/// patterns, a complex element as the patterns of its two parts.
#[derive(Debug, Clone)]
pub enum Cell {
    Logical(Vec<Option<bool>>),
    Bit(Vec<bool>),
    Byte(Vec<u8>),
    Character(String),
    UnicodeCharacter(String),
    Integer16(Vec<Option<i16>>),
    Integer32(Vec<Option<i32>>),
    Integer64(Vec<Option<i64>>),
    Float32(Vec<u32>),
    Float64(Vec<u64>),
    Complex32(Vec<(u32, u32)>),
    Complex64(Vec<(u64, u64)>),
}

/// The mathematical content of a [`Cell`].
pub enum CellView {
    Logical(Seq<Option<bool>>),
    Bit(Seq<bool>),
    Byte(Seq<u8>),
    Character(Seq<char>),
    UnicodeCharacter(Seq<char>),
    Integer16(Seq<Option<i16>>),
    Integer32(Seq<Option<i32>>),
    Integer64(Seq<Option<i64>>),
    Float32(Seq<u32>),
    Float64(Seq<u64>),
    Complex32(Seq<(u32, u32)>),
    Complex64(Seq<(u64, u64)>),
}

impl DeepView for Cell {
    type V = CellView;

    open spec fn deep_view(&self) -> CellView {
        match self {
            Cell::Logical(items) => CellView::Logical(items@),
            Cell::Bit(items) => CellView::Bit(items@),
            Cell::Byte(items) => CellView::Byte(items@),
            Cell::Character(text) => CellView::Character(text@),
            Cell::UnicodeCharacter(text) => CellView::UnicodeCharacter(text@),
            Cell::Integer16(items) => CellView::Integer16(items@),
            Cell::Integer32(items) => CellView::Integer32(items@),
            Cell::Integer64(items) => CellView::Integer64(items@),
            Cell::Float32(items) => CellView::Float32(items@),
            Cell::Float64(items) => CellView::Float64(items@),
            Cell::Complex32(items) => CellView::Complex32(items@),
            Cell::Complex64(items) => CellView::Complex64(items@),
        }
    }
}

/// One row of a table: a cell for each column, in the order of the columns.
#[derive(Debug, Clone)]
pub struct OwnedRow {
    pub cells: Vec<Cell>,
}

impl DeepView for OwnedRow {
    type V = Seq<CellView>;

    open spec fn deep_view(&self) -> Seq<CellView> {
        self.cells.deep_view()
    }
}

/// The rows of a table.
#[derive(Debug, Clone)]
pub struct Data {
    pub rows: Vec<OwnedRow>,
}

impl DeepView for Data {
    type V = Seq<Seq<CellView>>;

    open spec fn deep_view(&self) -> Seq<Seq<CellView>> {
        self.rows.deep_view()
    }
}

/// The text that the bytes of a character cell stand for. It is UTF-8 read
/// leniently: what does not decode is replaced, never refused.
pub uninterp spec fn utf8_lossy(bytes: Seq<u8>) -> Seq<char>;

/// `String::from_utf8_lossy`: the text of `bytes`, with each sequence that is
/// not UTF-8 replaced by U+FFFD. The result is named, not spelled out.
#[verifier::external_body]
fn lossy_text(bytes: &[u8]) -> (r: String)
    ensures
        r@ == utf8_lossy(bytes@),
{
    String::from_utf8_lossy(bytes).into_owned()
}

/// The number of bytes that one element of `datatype` takes in a binary
/// row, for the datatypes that have a layout there.
pub open spec fn element_width(datatype: DataType) -> Option<nat> {
    match datatype {
        DataType::Byte => Some(1),
        DataType::Character => Some(1),
        DataType::Integer16 => Some(2),
        DataType::Integer32 => Some(4),
        DataType::Integer64 => Some(8),
        DataType::Float32 => Some(4),
        DataType::Float64 => Some(8),
        _ => None,
    }
}

/// A sixteen-bit element of a column: missing where it is the column's
/// sentinel.
pub open spec fn present16(field: FieldView, value: i16) -> Option<i16> {
    if field.is_null(NullableDataValue::Integer16(value)) {
        None
    } else {
        Some(value)
    }
}

/// A thirty-two-bit element of a column: missing where it is the column's
/// sentinel.
pub open spec fn present32(field: FieldView, value: i32) -> Option<i32> {
    if field.is_null(NullableDataValue::Integer32(value)) {
        None
    } else {
        Some(value)
    }
}

/// A sixty-four-bit element of a column: missing where it is the column's
/// sentinel.
pub open spec fn present64(field: FieldView, value: i64) -> Option<i64> {
    if field.is_null(NullableDataValue::Integer64(value)) {
        None
    } else {
        Some(value)
    }
}

/// The cell that `count` elements of `datatype` make, read from `bytes` at
/// `at`. Bytes are kept as they stand; characters are one text, cut at its
/// first zero byte; integers are read big-endian and held against the
/// column's sentinel; floating-point elements are kept as their big-endian
/// bit patterns. The datatypes without a layout are never asked for.
pub open spec fn cell_of(
    field: FieldView,
    datatype: DataType,
    bytes: Seq<u8>,
    at: int,
    count: int,
) -> CellView {
    match datatype {
        DataType::Character => CellView::Character(
            utf8_lossy(c_string(bytes.subrange(at, at + count))),
        ),
        DataType::Integer16 => CellView::Integer16(
            Seq::new(count as nat, |i: int| present16(field, be_i16_at(bytes, at + 2 * i) as i16)),
        ),
        DataType::Integer32 => CellView::Integer32(
            Seq::new(count as nat, |i: int| present32(field, be_i32_at(bytes, at + 4 * i) as i32)),
        ),
        DataType::Integer64 => CellView::Integer64(
            Seq::new(count as nat, |i: int| present64(field, be_i64_at(bytes, at + 8 * i) as i64)),
        ),
        DataType::Float32 => CellView::Float32(
            Seq::new(count as nat, |i: int| be_u32_at(bytes, at + 4 * i) as u32),
        ),
        DataType::Float64 => CellView::Float64(
            Seq::new(count as nat, |i: int| be_u64_at(bytes, at + 8 * i) as u64),
        ),
        _ => CellView::Byte(bytes.subrange(at, at + count)),
    }
}

/// The text of the error for a column that is decoded without a datatype.
pub open spec fn missing_datatype(name: Option<Seq<char>>) -> Seq<char> {
    match name {
        Some(name) => "Cannot parse field "@ + name + ". Missing datatype"@,
        None => "Cannot parse field. Missing datatype"@,
    }
}

/// What reading one cell gives.
pub enum Reading {
    /// The cell, and where the next one starts.
    Cell { cell: CellView, next: int },
    /// The bytes end before the cell does.
    Stop,
    /// The stream cannot be decoded.
    Fail(ErrorView),
}

/// The cell of `count` elements of the column `field` at `at`. A column
/// without a datatype, or with one that has no layout here, fails; elements
/// that reach beyond the end of the bytes stop the decoding.
pub open spec fn cell_counted(field: FieldView, bytes: Seq<u8>, at: int, count: int) -> Reading {
    match field.datatype {
        None => Reading::Fail(cannot_parse(missing_datatype(field.name), "BINARY > STREAM")),
        Some(datatype) => match element_width(datatype) {
            None => Reading::Fail(cannot_parse(datatype.spec_name(), "BINARY > STREAM")),
            Some(width) => if at + count * width > bytes.len() {
                Reading::Stop
            } else {
                Reading::Cell {
                    cell: cell_of(field, datatype, bytes, at, count),
                    next: at + count * width,
                }
            },
        },
    }
}

/// The cell of the column `field` at `pos`. Where the column fixes no
/// element count, four bytes state it first, as a big-endian signed
/// integer: if they are not all there the decoding stops, and a negative
/// count fails.
pub open spec fn cell_at(field: FieldView, bytes: Seq<u8>, pos: int) -> Reading {
    match field.len() {
        Some(count) => cell_counted(field, bytes, pos, count as int),
        None => if pos + 4 > bytes.len() {
            Reading::Stop
        } else if be_i32_at(bytes, pos) < 0 {
            Reading::Fail(cannot_parse("Length must be positive"@, "BINARY > STREAM"))
        } else {
            cell_counted(field, bytes, pos + 4, be_i32_at(bytes, pos))
        },
    }
}

/// What reading one row gives.
pub enum RowReading {
    /// The cells of the row, and where the next row starts.
    Row { cells: Seq<CellView>, next: int },
    /// The bytes end before the row does.
    Stop,
    /// The stream cannot be decoded.
    Fail(ErrorView),
}

/// The row at `pos`, of which the cells of the first `k` columns are read
/// already: they are `cells`, and `pos` is where the next cell starts.
pub open spec fn row_from(
    fields: Seq<FieldView>,
    bytes: Seq<u8>,
    pos: int,
    k: int,
    cells: Seq<CellView>,
) -> RowReading
    decreases fields.len() - k,
{
    if k < 0 || k >= fields.len() {
        RowReading::Row { cells, next: pos }
    } else {
        match cell_at(fields[k], bytes, pos) {
            Reading::Stop => RowReading::Stop,
            Reading::Fail(e) => RowReading::Fail(e),
            Reading::Cell { cell, next } => row_from(fields, bytes, next, k + 1, cells.push(cell)),
        }
    }
}

/// The row that starts at `pos`.
pub open spec fn row_at(fields: Seq<FieldView>, bytes: Seq<u8>, pos: int) -> RowReading {
    row_from(fields, bytes, pos, 0, Seq::empty())
}

/// The rows of the stream from `pos` on, after `rows`. Row follows row until
/// one cannot be completed from the bytes that are left: what was read of it
/// is dropped, and that is the ordinary end. A row that takes no bytes at
/// all ends the decoding too, and is not counted.
pub open spec fn rows_from(
    fields: Seq<FieldView>,
    bytes: Seq<u8>,
    pos: int,
    rows: Seq<Seq<CellView>>,
) -> Result<Seq<Seq<CellView>>, ErrorView>
    decreases bytes.len() - pos,
{
    match row_at(fields, bytes, pos) {
        RowReading::Stop => Ok(rows),
        RowReading::Fail(e) => Err(e),
        RowReading::Row { cells, next } => if pos < next <= bytes.len() {
            rows_from(fields, bytes, next, rows.push(cells))
        } else {
            Ok(rows)
        },
    }
}

/// The rows that the bytes of a binary stream hold for the columns `fields`.
pub open spec fn rows_of(fields: Seq<FieldView>, bytes: Seq<u8>) -> Result<
    Seq<Seq<CellView>>,
    ErrorView,
> {
    rows_from(fields, bytes, 0, Seq::empty())
}

/// What a step of the decoder gave, by its content.
pub open spec fn reading_of(r: Result<Option<(Cell, usize)>, Error>) -> Reading {
    match r {
        Ok(Some((cell, next))) => Reading::Cell { cell: cell.deep_view(), next: next as int },
        Ok(None) => Reading::Stop,
        Err(e) => Reading::Fail(e@),
    }
}

/// What reading a row gave, by its content.
pub open spec fn row_reading_of(r: Result<Option<(OwnedRow, usize)>, Error>) -> RowReading {
    match r {
        Ok(Some((row, next))) => RowReading::Row { cells: row.deep_view(), next: next as int },
        Ok(None) => RowReading::Stop,
        Err(e) => RowReading::Fail(e@),
    }
}

/// The number of bytes that one element of `datatype` takes in a binary row.
pub fn width_of(datatype: DataType) -> (r: Option<usize>)
    ensures
        match r {
            Some(width) => element_width(datatype) == Some(width as nat),
            None => element_width(datatype).is_none(),
        },
{
    match datatype {
        DataType::Byte => Some(1),
        DataType::Character => Some(1),
        DataType::Integer16 => Some(2),
        DataType::Integer32 => Some(4),
        DataType::Integer64 => Some(8),
        DataType::Float32 => Some(4),
        DataType::Float64 => Some(8),
        _ => None,
    }
}

fn read_i16s(field: &Field, bytes: &[u8], at: usize, count: usize) -> (items: Vec<Option<i16>>)
    requires
        at + 2 * count <= bytes@.len(),
    ensures
        cell_of(field.deep_view(), DataType::Integer16, bytes@, at as int, count as int)
            == CellView::Integer16(items@),
{
    let end = bytes.len();
    let ghost column = field.deep_view();
    let mut items: Vec<Option<i16>> = Vec::new();
    let mut i: usize = 0;
    while i < count
        invariant
            i <= count,
            end == bytes@.len(),
            at + 2 * count <= bytes@.len(),
            column == field.deep_view(),
            items@ =~= Seq::new(
                i as nat,
                |j: int| present16(column, be_i16_at(bytes@, at + 2 * j) as i16),
            ),
        decreases count - i,
    {
        let value = i16_at(bytes, at + 2 * i);
        items.push(if field.is_null(value) { None } else { Some(value) });
        i = i + 1;
    }
    items
}

fn read_i32s(field: &Field, bytes: &[u8], at: usize, count: usize) -> (items: Vec<Option<i32>>)
    requires
        at + 4 * count <= bytes@.len(),
    ensures
        cell_of(field.deep_view(), DataType::Integer32, bytes@, at as int, count as int)
            == CellView::Integer32(items@),
{
    let end = bytes.len();
    let ghost column = field.deep_view();
    let mut items: Vec<Option<i32>> = Vec::new();
    let mut i: usize = 0;
    while i < count
        invariant
            i <= count,
            end == bytes@.len(),
            at + 4 * count <= bytes@.len(),
            column == field.deep_view(),
            items@ =~= Seq::new(
                i as nat,
                |j: int| present32(column, be_i32_at(bytes@, at + 4 * j) as i32),
            ),
        decreases count - i,
    {
        let value = i32_at(bytes, at + 4 * i);
        items.push(if field.is_null(value) { None } else { Some(value) });
        i = i + 1;
    }
    items
}

fn read_i64s(field: &Field, bytes: &[u8], at: usize, count: usize) -> (items: Vec<Option<i64>>)
    requires
        at + 8 * count <= bytes@.len(),
    ensures
        cell_of(field.deep_view(), DataType::Integer64, bytes@, at as int, count as int)
            == CellView::Integer64(items@),
{
    let end = bytes.len();
    let ghost column = field.deep_view();
    let mut items: Vec<Option<i64>> = Vec::new();
    let mut i: usize = 0;
    while i < count
        invariant
            i <= count,
            end == bytes@.len(),
            at + 8 * count <= bytes@.len(),
            column == field.deep_view(),
            items@ =~= Seq::new(
                i as nat,
                |j: int| present64(column, be_i64_at(bytes@, at + 8 * j) as i64),
            ),
        decreases count - i,
    {
        let value = i64_at(bytes, at + 8 * i);
        items.push(if field.is_null(value) { None } else { Some(value) });
        i = i + 1;
    }
    items
}

fn read_u32s(bytes: &[u8], at: usize, count: usize) -> (items: Vec<u32>)
    requires
        at + 4 * count <= bytes@.len(),
    ensures
        items@ == Seq::new(count as nat, |j: int| be_u32_at(bytes@, at + 4 * j) as u32),
{
    let end = bytes.len();
    let mut items: Vec<u32> = Vec::new();
    let mut i: usize = 0;
    while i < count
        invariant
            i <= count,
            end == bytes@.len(),
            at + 4 * count <= bytes@.len(),
            items@ =~= Seq::new(i as nat, |j: int| be_u32_at(bytes@, at + 4 * j) as u32),
        decreases count - i,
    {
        let value = u32_at(bytes, at + 4 * i);
        items.push(value);
        i = i + 1;
    }
    items
}

fn read_u64s(bytes: &[u8], at: usize, count: usize) -> (items: Vec<u64>)
    requires
        at + 8 * count <= bytes@.len(),
    ensures
        items@ == Seq::new(count as nat, |j: int| be_u64_at(bytes@, at + 8 * j) as u64),
{
    let end = bytes.len();
    let mut items: Vec<u64> = Vec::new();
    let mut i: usize = 0;
    while i < count
        invariant
            i <= count,
            end == bytes@.len(),
            at + 8 * count <= bytes@.len(),
            items@ =~= Seq::new(i as nat, |j: int| be_u64_at(bytes@, at + 8 * j) as u64),
        decreases count - i,
    {
        let value = u64_at(bytes, at + 8 * i);
        items.push(value);
        i = i + 1;
    }
    items
}

/// Reads the cell of `count` elements of `datatype` at `at`.
pub fn read_cell(field: &Field, datatype: DataType, bytes: &[u8], at: usize, count: usize) -> (cell:
    Cell)
    requires
        element_width(datatype) is Some,
        at + count * element_width(datatype).unwrap() <= bytes@.len(),
    ensures
        cell.deep_view() == cell_of(field.deep_view(), datatype, bytes@, at as int, count as int),
{
    let end = bytes.len();
    match datatype {
        DataType::Character => {
            let length = find_text_end(bytes, at, count);
            let text = slice_subrange(bytes, at, at + length);
            assert(text@ =~= c_string(bytes@.subrange(at as int, at + count)));
            Cell::Character(lossy_text(text))
        },
        DataType::Integer16 => Cell::Integer16(read_i16s(field, bytes, at, count)),
        DataType::Integer32 => Cell::Integer32(read_i32s(field, bytes, at, count)),
        DataType::Integer64 => Cell::Integer64(read_i64s(field, bytes, at, count)),
        DataType::Float32 => Cell::Float32(read_u32s(bytes, at, count)),
        DataType::Float64 => Cell::Float64(read_u64s(bytes, at, count)),
        _ => Cell::Byte(slice_to_vec(slice_subrange(bytes, at, at + count))),
    }
}

/// Builds the error of a column that is decoded without a datatype.
fn missing_datatype_error(name: &Option<String>) -> (e: Error)
    ensures
        e@ == cannot_parse(missing_datatype(name.deep_view()), "BINARY > STREAM"),
{
    let got = match name {
        Some(name) => {
            let mut text = "Cannot parse field ".to_owned();
            text.append(name.as_str());
            text.append(". Missing datatype");
            text
        },
        None => "Cannot parse field. Missing datatype".to_owned(),
    };
    Error::CannotParse { got, target: "BINARY > STREAM" }
}

/// Reads the cell of `count` elements of the column `field` at `at`.
pub fn read_counted(field: &Field, bytes: &[u8], at: usize, count: usize) -> (r: Result<
    Option<(Cell, usize)>,
    Error,
>)
    requires
        at <= bytes@.len(),
    ensures
        reading_of(r) == cell_counted(field.deep_view(), bytes@, at as int, count as int),
        r matches Ok(Some((_, next))) ==> at <= next <= bytes@.len() && (count > 0 ==> at < next),
{
    let datatype = match field.datatype {
        Some(datatype) => datatype,
        None => {
            return Err(missing_datatype_error(&field.name));
        },
    };
    let width = match width_of(datatype) {
        Some(width) => width,
        None => {
            return Err(
                Error::CannotParse { got: datatype.name().to_owned(), target: "BINARY > STREAM" },
            );
        },
    };
    let left = bytes.len() - at;
    if count > left / width {
        assert(count * width > left) by (nonlinear_arith)
            requires
                count > left / width,
                width > 0,
        ;
        return Ok(None);
    }
    assert(count * width <= left && (count > 0 ==> count * width > 0)) by (nonlinear_arith)
        requires
            count <= left / width,
            width > 0,
    ;
    let cell = read_cell(field, datatype, bytes, at, count);
    Ok(Some((cell, at + count * width)))
}

/// Reads the cell of the column `field` at `pos`.
pub fn read_cell_at(field: &Field, bytes: &[u8], pos: usize) -> (r: Result<
    Option<(Cell, usize)>,
    Error,
>)
    requires
        pos <= bytes@.len(),
    ensures
        reading_of(r) == cell_at(field.deep_view(), bytes@, pos as int),
        r matches Ok(Some((_, next))) ==> pos <= next <= bytes@.len(),
{
    match field.len() {
        Some(count) => read_counted(field, bytes, pos, count),
        None => {
            if bytes.len() - pos < 4 {
                return Ok(None);
            }
            let count = i32_at(bytes, pos);
            if count < 0 {
                return Err(
                    Error::CannotParse {
                        got: "Length must be positive".to_owned(),
                        target: "BINARY > STREAM",
                    },
                );
            }
            read_counted(field, bytes, pos + 4, count as usize)
        },
    }
}

/// Reads the row that starts at `pos`.
pub fn read_row(fields: &Vec<Field>, bytes: &[u8], pos: usize) -> (r: Result<
    Option<(OwnedRow, usize)>,
    Error,
>)
    requires
        pos <= bytes@.len(),
    ensures
        row_reading_of(r) == row_at(fields.deep_view(), bytes@, pos as int),
        r matches Ok(Some((_, next))) ==> pos <= next <= bytes@.len(),
{
    let mut cells: Vec<Cell> = Vec::new();
    let mut at: usize = pos;
    let mut k: usize = 0;
    assert(cells.deep_view() =~= Seq::empty());
    while k < fields.len()
        invariant
            k <= fields.len(),
            pos <= at <= bytes@.len(),
            row_at(fields.deep_view(), bytes@, pos as int) == row_from(
                fields.deep_view(),
                bytes@,
                at as int,
                k as int,
                cells.deep_view(),
            ),
        decreases fields.len() - k,
    {
        match read_cell_at(&fields[k], bytes, at) {
            Err(e) => {
                return Err(e);
            },
            Ok(None) => {
                return Ok(None);
            },
            Ok(Some((cell, next))) => {
                let ghost before = cells.deep_view();
                cells.push(cell);
                assert(cells.deep_view() =~= before.push(cell.deep_view()));
                at = next;
            },
        }
        k = k + 1;
    }
    Ok(Some((OwnedRow { cells }, at)))
}

impl Data {
    /// Decodes the rows that `bytes` hold for the columns `fields`: row after
    /// row, each a cell per column in the order of the columns, until the
    /// bytes do not hold another whole row.
    pub fn decode(fields: &Vec<Field>, bytes: &[u8]) -> (r: Result<Data, Error>)
        ensures
            outcome(r) == rows_of(fields.deep_view(), bytes@),
    {
        let mut rows: Vec<OwnedRow> = Vec::new();
        let mut pos: usize = 0;
        assert(rows.deep_view() =~= Seq::empty());
        loop
            invariant
                pos <= bytes@.len(),
                rows_of(fields.deep_view(), bytes@) == rows_from(
                    fields.deep_view(),
                    bytes@,
                    pos as int,
                    rows.deep_view(),
                ),
            decreases bytes@.len() - pos,
        {
            match read_row(fields, bytes, pos) {
                Err(e) => {
                    return Err(e);
                },
                Ok(None) => {
                    return Ok(Data { rows });
                },
                Ok(Some((row, next))) => {
                    if next <= pos {
                        return Ok(Data { rows });
                    }
                    let ghost before = rows.deep_view();
                    rows.push(row);
                    assert(rows.deep_view() =~= before.push(row.deep_view()));
                    pos = next;
                },
            }
        }
    }
}

} // verus!
