//! What holds of the decoder and of the walk for every input.

use vstd::prelude::*;
use vstd::assert_seqs_equal;
use crate::data::{
    cell_at, cell_counted, cell_of, element_width, present16, present32, present64, row_at,
    row_from, rows_from, rows_of, CellView, Reading, RowReading,
};
use crate::error::{cannot_parse, ErrorView};
use crate::payload::{base64_decoded, payload_outcome, without_whitespace};
use crate::schema::{ArraySize, DataType, FieldView, NullableDataValue, Values};
use crate::token::{AttributeView, EventsView, TokenView};
use crate::tree::{ResourceView, TableView};
use crate::walk::{
    attribute_value, binary_from, binary_knows, data_from, data_knows, field_from, field_knows,
    lemma_table_advances, resource_from, resource_knows, stream_from, stream_parsed, table_from,
    table_knows, within,
};
use crate::wire::{
    be_bytes, be_i16_at, be_i32_at, be_i64_at, be_u32_at, be_u64_at, lemma_be_round_trip,
    lemma_be_value_bound, lemma_pow256,
};

verus! {

/// The bytes of a run of sixty-four-bit patterns, each written big-endian.
pub open spec fn encoded_u64s(values: Seq<u64>) -> Seq<u8>
    decreases values.len(),
{
    if values.len() == 0 {
        Seq::empty()
    } else {
        encoded_u64s(values.drop_last()) + be_bytes(values.last() as nat, 8)
    }
}

/// The written patterns stand one after the other, eight bytes each, and
/// each reads back as itself.
pub proof fn lemma_encoded_u64s(values: Seq<u64>)
    ensures
        encoded_u64s(values).len() == 8 * values.len(),
        forall|i: int|
            0 <= i < values.len() ==> #[trigger] be_u64_at(encoded_u64s(values), 8 * i)
                == values[i],
    decreases values.len(),
{
    if values.len() > 0 {
        let front = values.drop_last();
        let last = be_bytes(values.last() as nat, 8);
        lemma_encoded_u64s(front);
        lemma_be_round_trip(values.last() as nat, 8);
        lemma_pow256();
        let all = encoded_u64s(values);
        assert forall|i: int| 0 <= i < values.len() implies #[trigger] be_u64_at(all, 8 * i)
            == values[i] by {
            if i < front.len() {
                assert(all.subrange(8 * i, 8 * i + 8) =~= encoded_u64s(front).subrange(
                    8 * i,
                    8 * i + 8,
                ));
                assert(be_u64_at(encoded_u64s(front), 8 * i) == front[i]);
            } else {
                assert(all.subrange(8 * i, 8 * i + 8) =~= last);
            }
        }
    }
}

/// A column of a fixed number of double-precision elements gives back, bit
/// for bit, the elements that were written big-endian: the stream of one
/// row of `values` decodes to that one row.
pub proof fn lemma_float64_round_trip(field: FieldView, values: Seq<u64>)
    requires
        0 < values.len() <= usize::MAX,
        field.datatype == Some(DataType::Float64),
        field.arraysize == Some(ArraySize::Fixed(values.len() as usize)),
    ensures
        rows_of(seq![field], encoded_u64s(values)) == Ok::<Seq<Seq<CellView>>, ErrorView>(
            seq![seq![CellView::Float64(values)]],
        ),
{
    let bytes = encoded_u64s(values);
    let n = values.len() as int;
    lemma_encoded_u64s(values);
    let cell = cell_of(field, DataType::Float64, bytes, 0, n);
    assert(cell == CellView::Float64(values)) by {
        let read = Seq::new(n as nat, |i: int| be_u64_at(bytes, 0 + 8 * i) as u64);
        assert(read =~= values);
    }
    assert(cell_counted(field, bytes, 0, n) == Reading::Cell { cell, next: 8 * n });
    reveal_with_fuel(row_from, 3);
    reveal_with_fuel(rows_from, 3);
}

/// A row that is read whole has a cell for each column: as many as were
/// read before, and one for each column from `k` on.
pub proof fn lemma_row_width(
    fields: Seq<FieldView>,
    bytes: Seq<u8>,
    pos: int,
    k: int,
    cells: Seq<CellView>,
)
    requires
        0 <= k <= fields.len(),
    ensures
        row_from(fields, bytes, pos, k, cells) matches RowReading::Row { cells: whole, .. }
            ==> whole.len() == cells.len() + fields.len() - k,
    decreases fields.len() - k,
{
    if k < fields.len() {
        match cell_at(fields[k], bytes, pos) {
            Reading::Cell { cell, next } => lemma_row_width(
                fields,
                bytes,
                next,
                k + 1,
                cells.push(cell),
            ),
            _ => {},
        }
    }
}

/// Every row of a decoded stream has one cell for each column, and the rows
/// that were there before the decoding went on stay as they were.
pub proof fn lemma_rows_are_whole(
    fields: Seq<FieldView>,
    bytes: Seq<u8>,
    pos: int,
    rows: Seq<Seq<CellView>>,
)
    requires
        forall|i: int| 0 <= i < rows.len() ==> (#[trigger] rows[i]).len() == fields.len(),
    ensures
        rows_from(fields, bytes, pos, rows) matches Ok(all) ==> {
            &&& rows.len() <= all.len()
            &&& all.take(rows.len() as int) == rows
            &&& forall|i: int| 0 <= i < all.len() ==> (#[trigger] all[i]).len() == fields.len()
        },
    decreases bytes.len() - pos,
{
    match row_at(fields, bytes, pos) {
        RowReading::Row { cells, next } => {
            if pos < next <= bytes.len() {
                lemma_row_width(fields, bytes, pos, 0, Seq::empty());
                lemma_rows_are_whole(fields, bytes, next, rows.push(cells));
            }
        },
        _ => {},
    }
}

/// Where the cell of column `j` starts in the row that starts at `pos`:
/// behind the cells of the columns before it.
pub open spec fn cell_start(fields: Seq<FieldView>, bytes: Seq<u8>, pos: int, j: int) -> int
    decreases j,
{
    if j <= 0 {
        pos
    } else {
        let before = cell_start(fields, bytes, pos, j - 1);
        match cell_at(fields[j - 1], bytes, before) {
            Reading::Cell { next, .. } => next,
            _ => before,
        }
    }
}

/// Where row `r` of the stream starts: behind the rows before it.
pub open spec fn row_start(fields: Seq<FieldView>, bytes: Seq<u8>, r: int) -> int
    decreases r,
{
    if r <= 0 {
        0
    } else {
        let before = row_start(fields, bytes, r - 1);
        match row_at(fields, bytes, before) {
            RowReading::Row { next, .. } => next,
            _ => before,
        }
    }
}

/// Whether `cells` are the cells of the first `k` columns of the row that
/// starts at `pos`, each read where the one before it ended.
pub open spec fn cells_read(
    fields: Seq<FieldView>,
    bytes: Seq<u8>,
    pos: int,
    cells: Seq<CellView>,
    k: int,
) -> bool {
    forall|j: int|
        0 <= j < k ==> cell_at(fields[j], bytes, cell_start(fields, bytes, pos, j)) == (
        Reading::Cell { cell: #[trigger] cells[j], next: cell_start(fields, bytes, pos, j + 1) })
}

/// Whether `rows` are the first `n` rows of the stream, each read where the
/// one before it ended.
pub open spec fn rows_read(
    fields: Seq<FieldView>,
    bytes: Seq<u8>,
    rows: Seq<Seq<CellView>>,
    n: int,
) -> bool {
    forall|r: int|
        0 <= r < n ==> row_at(fields, bytes, row_start(fields, bytes, r)) == (RowReading::Row {
            cells: #[trigger] rows[r],
            next: row_start(fields, bytes, r + 1),
        })
}

/// A row that is read whole is made of the cell of each column, read where
/// the cell before it ended.
pub proof fn lemma_row_cells(
    fields: Seq<FieldView>,
    bytes: Seq<u8>,
    pos: int,
    k: int,
    cells: Seq<CellView>,
)
    requires
        0 <= k <= fields.len(),
        cells.len() == k,
        cells_read(fields, bytes, pos, cells, k),
    ensures
        row_from(fields, bytes, cell_start(fields, bytes, pos, k), k, cells) matches RowReading::Row {
            cells: whole,
            next,
        } ==> {
            &&& whole.len() == fields.len()
            &&& next == cell_start(fields, bytes, pos, fields.len() as int)
            &&& cells_read(fields, bytes, pos, whole, fields.len() as int)
        },
    decreases fields.len() - k,
{
    if k < fields.len() {
        match cell_at(fields[k], bytes, cell_start(fields, bytes, pos, k)) {
            Reading::Cell { cell, next } => {
                let longer = cells.push(cell);
                assert(cell_start(fields, bytes, pos, k + 1) == next);
                assert forall|j: int| 0 <= j < k + 1 implies cell_at(
                    fields[j],
                    bytes,
                    cell_start(fields, bytes, pos, j),
                ) == (Reading::Cell {
                    cell: #[trigger] longer[j],
                    next: cell_start(fields, bytes, pos, j + 1),
                }) by {
                    if j < k {
                        assert(longer[j] == cells[j]);
                    }
                }
                lemma_row_cells(fields, bytes, pos, k + 1, longer);
            },
            _ => {},
        }
    }
}

/// The rows of a decoded stream are read one behind the other from its
/// start.
pub proof fn lemma_rows_read(
    fields: Seq<FieldView>,
    bytes: Seq<u8>,
    pos: int,
    rows: Seq<Seq<CellView>>,
)
    requires
        pos == row_start(fields, bytes, rows.len() as int),
        rows_read(fields, bytes, rows, rows.len() as int),
    ensures
        rows_from(fields, bytes, pos, rows) matches Ok(all) ==> rows_read(
            fields,
            bytes,
            all,
            all.len() as int,
        ),
    decreases bytes.len() - pos,
{
    match row_at(fields, bytes, pos) {
        RowReading::Row { cells, next } => {
            if pos < next <= bytes.len() {
                let longer = rows.push(cells);
                assert(row_start(fields, bytes, rows.len() as int + 1) == next);
                assert forall|r: int| 0 <= r < longer.len() implies row_at(
                    fields,
                    bytes,
                    row_start(fields, bytes, r),
                ) == (RowReading::Row {
                    cells: #[trigger] longer[r],
                    next: row_start(fields, bytes, r + 1),
                }) by {
                    if r < rows.len() {
                        assert(longer[r] == rows[r]);
                    }
                }
                lemma_rows_read(fields, bytes, next, longer);
            }
        },
        _ => {},
    }
}

/// Every cell of a decoded stream is the cell of its column, read from the
/// bytes where it stands: in row `r`, behind the rows before it and the
/// cells of the columns before `j`.
pub proof fn lemma_decoded_cell(fields: Seq<FieldView>, bytes: Seq<u8>, r: int, j: int)
    requires
        rows_of(fields, bytes) is Ok,
        0 <= r < rows_of(fields, bytes)->Ok_0.len(),
        0 <= j < fields.len(),
    ensures
        ({
            let rows = rows_of(fields, bytes)->Ok_0;
            let at = cell_start(fields, bytes, row_start(fields, bytes, r), j);
            &&& rows[r].len() == fields.len()
            &&& cell_at(fields[j], bytes, at) is Cell
            &&& cell_at(fields[j], bytes, at)->cell == rows[r][j]
        }),
{
    let rows = rows_of(fields, bytes)->Ok_0;
    let pos = row_start(fields, bytes, r);
    lemma_rows_read(fields, bytes, 0, Seq::empty());
    assert(row_at(fields, bytes, pos) == RowReading::Row {
        cells: rows[r],
        next: row_start(fields, bytes, r + 1),
    });
    lemma_row_cells(fields, bytes, pos, 0, Seq::empty());
    assert(cell_at(fields[j], bytes, cell_start(fields, bytes, pos, j)) == Reading::Cell {
        cell: rows[r][j],
        next: cell_start(fields, bytes, pos, j + 1),
    });
}

/// Where the elements of a cell at `pos` start: at `pos`, or behind the
/// four bytes of the count where the column fixes none.
pub open spec fn elements_start(field: FieldView, pos: int) -> int {
    if field.len() is Some {
        pos
    } else {
        pos + 4
    }
}

/// How many elements the cell at `pos` has: as many as the column fixes, or
/// as the four bytes at `pos` state.
pub open spec fn elements_count(field: FieldView, bytes: Seq<u8>, pos: int) -> int {
    match field.len() {
        Some(count) => count as int,
        None => be_i32_at(bytes, pos),
    }
}

/// A cell that is read is made of exactly the elements that its count
/// states, read from where they start, and the next cell starts behind
/// them.
pub proof fn lemma_cell_elements(field: FieldView, bytes: Seq<u8>, pos: int)
    requires
        cell_at(field, bytes, pos) is Cell,
    ensures
        field.datatype is Some,
        element_width(field.datatype.unwrap()) is Some,
        elements_count(field, bytes, pos) >= 0,
        cell_at(field, bytes, pos)->cell == cell_of(
            field,
            field.datatype.unwrap(),
            bytes,
            elements_start(field, pos),
            elements_count(field, bytes, pos),
        ),
        cell_at(field, bytes, pos)->next == elements_start(field, pos) + elements_count(
            field,
            bytes,
            pos,
        ) * element_width(field.datatype.unwrap()).unwrap(),
        pos <= elements_start(field, pos) <= cell_at(field, bytes, pos)->next <= bytes.len(),
{
    let count = elements_count(field, bytes, pos);
    let width = element_width(field.datatype.unwrap()).unwrap();
    assert(0 <= count * width) by (nonlinear_arith)
        requires
            0 <= count,
            0 <= width,
    ;
}

/// No cell of a row starts before the row does.
pub proof fn lemma_cell_start_bound(fields: Seq<FieldView>, bytes: Seq<u8>, pos: int, j: int)
    ensures
        pos <= cell_start(fields, bytes, pos, j),
    decreases j,
{
    if j > 0 {
        lemma_cell_start_bound(fields, bytes, pos, j - 1);
        let before = cell_start(fields, bytes, pos, j - 1);
        if cell_at(fields[j - 1], bytes, before) is Cell {
            lemma_cell_elements(fields[j - 1], bytes, before);
        }
    }
}

/// No row starts before the stream does.
pub proof fn lemma_row_start_bound(fields: Seq<FieldView>, bytes: Seq<u8>, r: int)
    ensures
        0 <= row_start(fields, bytes, r),
    decreases r,
{
    if r > 0 {
        lemma_row_start_bound(fields, bytes, r - 1);
        let before = row_start(fields, bytes, r - 1);
        lemma_row_cells(fields, bytes, before, 0, Seq::empty());
        lemma_cell_start_bound(fields, bytes, before, fields.len() as int);
    }
}

/// Eight bytes that were written for a pattern read back as the pattern.
pub proof fn lemma_u64_reads_back(bytes: Seq<u8>, at: int, value: u64)
    requires
        bytes.subrange(at, at + 8) == be_bytes(value as nat, 8),
    ensures
        be_u64_at(bytes, at) == value,
{
    lemma_be_round_trip(value as nat, 8);
    lemma_pow256();
}

/// In every row of a decoded stream, whatever the other columns are, a
/// column of a fixed number of double-precision elements holds exactly that
/// many, read without a count before them, and each is the pattern of the
/// eight bytes where it stands. So where those bytes were written for
/// `values`, the cell holds `values` bit for bit.
pub proof fn lemma_float64_in_every_row(
    fields: Seq<FieldView>,
    bytes: Seq<u8>,
    r: int,
    j: int,
    values: Seq<u64>,
)
    requires
        rows_of(fields, bytes) is Ok,
        0 <= r < rows_of(fields, bytes)->Ok_0.len(),
        0 <= j < fields.len(),
        fields[j].datatype == Some(DataType::Float64),
        values.len() <= usize::MAX,
        fields[j].arraysize == Some(ArraySize::Fixed(values.len() as usize)),
        ({
            let at = cell_start(fields, bytes, row_start(fields, bytes, r), j);
            forall|i: int|
                0 <= i < values.len() ==> bytes.subrange(at + 8 * i, at + 8 * i + 8) == be_bytes(
                    #[trigger] values[i] as nat,
                    8,
                )
        }),
    ensures
        rows_of(fields, bytes)->Ok_0[r][j] == CellView::Float64(values),
{
    let at = cell_start(fields, bytes, row_start(fields, bytes, r), j);
    lemma_decoded_cell(fields, bytes, r, j);
    lemma_cell_elements(fields[j], bytes, at);
    let read = Seq::new(values.len(), |i: int| be_u64_at(bytes, at + 8 * i) as u64);
    assert forall|i: int| 0 <= i < values.len() implies read[i] == values[i] by {
        lemma_u64_reads_back(bytes, at + 8 * i, values[i]);
    }
    assert(read =~= values);
}

/// In every row of a decoded stream, whatever the other columns are, each
/// element of a thirty-two-bit integer column with a sentinel is missing
/// exactly where its four bytes are the sentinel's, and is else the integer
/// that they are; the elements are as many as the count states, in the
/// order of the bytes.
pub proof fn lemma_null_sentinel_in_every_row(
    fields: Seq<FieldView>,
    bytes: Seq<u8>,
    r: int,
    j: int,
    sentinel: i32,
)
    requires
        rows_of(fields, bytes) is Ok,
        0 <= r < rows_of(fields, bytes)->Ok_0.len(),
        0 <= j < fields.len(),
        fields[j].datatype == Some(DataType::Integer32),
        fields[j].values == Some(Values { null: Some(NullableDataValue::Integer32(sentinel)) }),
    ensures
        ({
            let pos = cell_start(fields, bytes, row_start(fields, bytes, r), j);
            let at = elements_start(fields[j], pos);
            let count = elements_count(fields[j], bytes, pos);
            &&& rows_of(fields, bytes)->Ok_0[r][j] is Integer32
            &&& rows_of(fields, bytes)->Ok_0[r][j]->Integer32_0.len() == count
            &&& forall|i: int|
                0 <= i < count ==> (#[trigger] rows_of(fields, bytes)->Ok_0[r][j]->Integer32_0[i])
                    == if be_i32_at(bytes, at + 4 * i) == sentinel {
                    None
                } else {
                    Some(be_i32_at(bytes, at + 4 * i) as i32)
                }
            &&& forall|i: int|
                0 <= i < count ==> i32::MIN <= #[trigger] be_i32_at(bytes, at + 4 * i) <= i32::MAX
        }),
{
    let pos = cell_start(fields, bytes, row_start(fields, bytes, r), j);
    let at = elements_start(fields[j], pos);
    let count = elements_count(fields[j], bytes, pos);
    lemma_decoded_cell(fields, bytes, r, j);
    lemma_cell_elements(fields[j], bytes, pos);
    lemma_row_start_bound(fields, bytes, r);
    lemma_cell_start_bound(fields, bytes, row_start(fields, bytes, r), j);
    lemma_pow256();
    let next = cell_at(fields[j], bytes, pos)->next;
    assert(element_width(DataType::Integer32) == Some(4nat));
    assert(next == at + count * 4);
    assert(0 <= at && at + 4 * count <= bytes.len());
    assert forall|i: int| 0 <= i < count implies i32::MIN <= #[trigger] be_i32_at(
        bytes,
        at + 4 * i,
    ) <= i32::MAX by {
        let chunk = bytes.subrange(at + 4 * i, at + 4 * i + 4);
        assert(chunk.len() == 4);
        lemma_be_value_bound(chunk);
    }
}

/// The four-byte pattern of a signed thirty-two-bit integer.
pub open spec fn pattern32(value: i32) -> nat {
    if value < 0 {
        (value + 0x1_0000_0000) as nat
    } else {
        value as nat
    }
}

/// A thirty-two-bit integer column with a sentinel reads the sentinel as a
/// missing element, and every other four bytes as the integer that they
/// are: the stream of one element `value` decodes to one row with that one
/// element, missing exactly where `value` is the sentinel.
pub proof fn lemma_null_sentinel(field: FieldView, sentinel: i32, value: i32)
    requires
        field.datatype == Some(DataType::Integer32),
        field.arraysize.is_none(),
        field.values == Some(Values { null: Some(NullableDataValue::Integer32(sentinel)) }),
    ensures
        rows_of(seq![field], be_bytes(pattern32(value), 4)) == Ok::<Seq<Seq<CellView>>, ErrorView>(
            seq![
                seq![
                    CellView::Integer32(
                        seq![
                            if value == sentinel {
                                None
                            } else {
                                Some(value)
                            },
                        ],
                    ),
                ],
            ],
        ),
{
    let bytes = be_bytes(pattern32(value), 4);
    lemma_be_round_trip(pattern32(value), 4);
    lemma_pow256();
    assert(bytes.subrange(0, 4) =~= bytes);
    let element = if value == sentinel {
        None
    } else {
        Some(value)
    };
    let cell = cell_of(field, DataType::Integer32, bytes, 0, 1);
    assert(cell == CellView::Integer32(seq![element])) by {
        let read = Seq::new(
            1,
            |i: int| present32(field, be_i32_at(bytes, 0 + 4 * i) as i32),
        );
        assert(read =~= seq![element]);
    }
    assert(cell_counted(field, bytes, 0, 1) == Reading::Cell { cell, next: 4 });
    reveal_with_fuel(row_from, 3);
    reveal_with_fuel(rows_from, 3);
}

/// The rows that a `STREAM` element gives are the rows of the bytes that its
/// content decodes to: the element names `base64` as its encoding, has
/// character content, and that content is base64 once its whitespace is
/// taken out. What holds of every decoded stream holds of them.
pub proof fn lemma_stream_rows_are_decoded(
    fields: Seq<FieldView>,
    attributes: Seq<AttributeView>,
    events: EventsView,
    pos: int,
)
    requires
        stream_parsed(fields, attributes, events, pos) is Ok,
    ensures
        ({
            let (rows, next) = stream_parsed(fields, attributes, events, pos)->Ok_0;
            &&& attribute_value(attributes, "encoding"@, 0) == Some("base64"@)
            &&& stream_from(events, pos, 0, None) matches Ok((Some(text), end)) && (end == next
                && (base64_decoded(without_whitespace(text)) matches Ok(bytes) && rows_of(
                fields,
                bytes,
            ) == Ok::<Seq<Seq<CellView>>, ErrorView>(rows)))
        }),
{
}

/// Content of a stream that is not base64, once its whitespace is taken
/// out, is an error that carries the decoder's words: it is never read as
/// rows, and never as no rows.
pub proof fn lemma_malformed_base64(fields: Seq<FieldView>, input: Seq<char>)
    requires
        base64_decoded(without_whitespace(input)) is Err,
    ensures
        payload_outcome(fields, "base64"@, Some(input)) == Err::<Seq<Seq<CellView>>, ErrorView>(
            cannot_parse(
                base64_decoded(without_whitespace(input))->Err_0,
                "BINARY > STREAM",
            ),
        ),
{
}

/// A cell of a column that fixes no element count is read from a four-byte
/// count and exactly that many elements behind it. Where the bytes hold
/// fewer, the decoding stops; a cell is never made of fewer elements than
/// its count states, nor of more.
pub proof fn lemma_variable_length(field: FieldView, bytes: Seq<u8>, pos: int)
    requires
        0 <= pos,
        field.len().is_none(),
    ensures
        match cell_at(field, bytes, pos) {
            Reading::Cell { cell, next } => {
                &&& pos + 4 <= bytes.len()
                &&& be_i32_at(bytes, pos) >= 0
                &&& field.datatype is Some
                &&& element_width(field.datatype.unwrap()) is Some
                &&& next == pos + 4 + be_i32_at(bytes, pos) * element_width(
                    field.datatype.unwrap(),
                ).unwrap()
                &&& next <= bytes.len()
                &&& cell == cell_of(
                    field,
                    field.datatype.unwrap(),
                    bytes,
                    pos + 4,
                    be_i32_at(bytes, pos),
                )
            },
            Reading::Stop => {
                ||| pos + 4 > bytes.len()
                ||| {
                    &&& field.datatype is Some
                    &&& element_width(field.datatype.unwrap()) is Some
                    &&& pos + 4 + be_i32_at(bytes, pos) * element_width(
                        field.datatype.unwrap(),
                    ).unwrap() > bytes.len()
                }
            },
            Reading::Fail(_) => pos + 4 <= bytes.len(),
        },
{
}

/// Whether `bytes` and `other` hold the same from `from` up to `to`.
pub open spec fn same_between(bytes: Seq<u8>, other: Seq<u8>, from: int, to: int) -> bool {
    &&& to <= bytes.len()
    &&& to <= other.len()
    &&& forall|i: int| from <= i < to ==> bytes[i] == other[i]
}

/// A cell is read from its own bytes alone: the count where it has one, and
/// the elements that the count states. Whatever stands behind them, the cell
/// and the place of the next one are the same.
pub proof fn lemma_cell_reads_its_own_bytes(
    field: FieldView,
    bytes: Seq<u8>,
    other: Seq<u8>,
    pos: int,
)
    requires
        0 <= pos,
        cell_at(field, bytes, pos) is Cell,
        same_between(bytes, other, pos, cell_at(field, bytes, pos)->next),
    ensures
        cell_at(field, other, pos) == cell_at(field, bytes, pos),
{
    let next = cell_at(field, bytes, pos)->next;
    let datatype = field.datatype.unwrap();
    let (at, count) = match field.len() {
        Some(count) => (pos, count as int),
        None => (pos + 4, be_i32_at(bytes, pos)),
    };
    if field.len().is_none() {
        assert(at <= next) by (nonlinear_arith)
            requires
                next == at + count * element_width(datatype).unwrap(),
                count >= 0,
        ;
        assert(other.subrange(pos, pos + 4) =~= bytes.subrange(pos, pos + 4));
    }
    lemma_cell_of_its_own_bytes(field, datatype, bytes, other, at, count);
}

/// The cell of `count` elements at `at` is the same in two runs of bytes
/// that hold the same where the elements stand.
pub proof fn lemma_cell_of_its_own_bytes(
    field: FieldView,
    datatype: DataType,
    bytes: Seq<u8>,
    other: Seq<u8>,
    at: int,
    count: int,
)
    requires
        0 <= at,
        0 <= count,
        element_width(datatype) is Some,
        same_between(bytes, other, at, at + count * element_width(datatype).unwrap()),
    ensures
        cell_of(field, datatype, other, at, count) == cell_of(field, datatype, bytes, at, count),
{
    match datatype {
        DataType::Integer16 => {
            assert_seqs_equal!(
                Seq::new(
                    count as nat,
                    |i: int| present16(field, be_i16_at(other, at + 2 * i) as i16),
                ) == Seq::new(
                    count as nat,
                    |i: int| present16(field, be_i16_at(bytes, at + 2 * i) as i16),
                ),
                i => {
                    lemma_same_chunk(
                        bytes,
                        other,
                        at,
                        at + 2 * count,
                        at + 2 * i,
                        at + 2 * i + 2,
                    );
                }
            );
        },
        DataType::Integer32 => {
            assert_seqs_equal!(
                Seq::new(
                    count as nat,
                    |i: int| present32(field, be_i32_at(other, at + 4 * i) as i32),
                ) == Seq::new(
                    count as nat,
                    |i: int| present32(field, be_i32_at(bytes, at + 4 * i) as i32),
                ),
                i => {
                    lemma_same_chunk(
                        bytes,
                        other,
                        at,
                        at + 4 * count,
                        at + 4 * i,
                        at + 4 * i + 4,
                    );
                }
            );
        },
        DataType::Integer64 => {
            assert_seqs_equal!(
                Seq::new(
                    count as nat,
                    |i: int| present64(field, be_i64_at(other, at + 8 * i) as i64),
                ) == Seq::new(
                    count as nat,
                    |i: int| present64(field, be_i64_at(bytes, at + 8 * i) as i64),
                ),
                i => {
                    lemma_same_chunk(
                        bytes,
                        other,
                        at,
                        at + 8 * count,
                        at + 8 * i,
                        at + 8 * i + 8,
                    );
                }
            );
        },
        DataType::Float32 => {
            assert_seqs_equal!(
                Seq::new(
                    count as nat,
                    |i: int| be_u32_at(other, at + 4 * i) as u32,
                ) == Seq::new(
                    count as nat,
                    |i: int| be_u32_at(bytes, at + 4 * i) as u32,
                ),
                i => {
                    lemma_same_chunk(
                        bytes,
                        other,
                        at,
                        at + 4 * count,
                        at + 4 * i,
                        at + 4 * i + 4,
                    );
                }
            );
        },
        DataType::Float64 => {
            assert_seqs_equal!(
                Seq::new(
                    count as nat,
                    |i: int| be_u64_at(other, at + 8 * i) as u64,
                ) == Seq::new(
                    count as nat,
                    |i: int| be_u64_at(bytes, at + 8 * i) as u64,
                ),
                i => {
                    lemma_same_chunk(
                        bytes,
                        other,
                        at,
                        at + 8 * count,
                        at + 8 * i,
                        at + 8 * i + 8,
                    );
                }
            );
        },
        _ => {
            lemma_same_chunk(bytes, other, at, at + count, at, at + count);
        },
    }
}

/// Two runs of bytes that hold the same from `from` up to `to` hold the same
/// in every stretch between the two.
pub proof fn lemma_same_chunk(
    bytes: Seq<u8>,
    other: Seq<u8>,
    from: int,
    to: int,
    low: int,
    high: int,
)
    requires
        same_between(bytes, other, from, to),
        0 <= from <= low <= high <= to,
    ensures
        other.subrange(low, high) == bytes.subrange(low, high),
{
}

/// The depth that a container is at behind the events from `pos` up to
/// `end`, if it was at `depth` before them and had no use for any of them.
pub open spec fn depth_behind(events: EventsView, pos: int, end: int, depth: int) -> int
    decreases end - pos,
{
    if end <= pos || !within(events, end - 1) {
        depth
    } else {
        let before = depth_behind(events, pos, end - 1, depth);
        match events.tokens[end - 1] {
            TokenView::Start { .. } => before + 1,
            TokenView::End => before - 1,
            _ => before,
        }
    }
}

/// Whether a container at `depth` has no use for the events from `pos` up
/// to `end`, where `known` tells the names of the elements that it knows: no
/// start tag among the events has such a name, and every end tag among them
/// closes an element that the container did not know.
pub open spec fn passed_over(
    events: EventsView,
    pos: int,
    end: int,
    depth: int,
    known: spec_fn(Seq<char>) -> bool,
) -> bool {
    &&& 0 <= pos <= end <= events.tokens.len()
    &&& 0 <= depth
    &&& forall|i: int|
        pos <= i < end ==> match #[trigger] events.tokens[i] {
            TokenView::Start { name, .. } => !known(name),
            TokenView::End => depth_behind(events, pos, i, depth) > 0,
            _ => true,
        }
}

/// What is passed over up to `end` is passed over up to the event before
/// `end`, and that event is of no use to the container either.
pub proof fn lemma_passed_over_last(
    events: EventsView,
    pos: int,
    end: int,
    depth: int,
    known: spec_fn(Seq<char>) -> bool,
)
    requires
        passed_over(events, pos, end, depth, known),
        pos < end,
    ensures
        passed_over(events, pos, end - 1, depth, known),
        match events.tokens[end - 1] {
            TokenView::Start { name, .. } => !known(name),
            TokenView::End => depth_behind(events, pos, end - 1, depth) > 0,
            _ => true,
        },
{
    assert(match #[trigger] events.tokens[end - 1] {
        TokenView::Start { name, .. } => !known(name),
        TokenView::End => depth_behind(events, pos, end - 1, depth) > 0,
        _ => true,
    });
}

/// A resource passes over events that it has no use for, however deep they
/// nest: it goes on behind them with what it had built before them, at the
/// depth that their start and end tags leave it at.
pub proof fn lemma_resource_skips_unknown(
    events: EventsView,
    pos: int,
    end: int,
    depth: nat,
    resource: ResourceView,
)
    requires
        passed_over(events, pos, end, depth as int, |name: Seq<char>| resource_knows(name)),
    ensures
        depth_behind(events, pos, end, depth as int) >= 0,
        resource_from(events, pos, depth, resource) == resource_from(
            events,
            end,
            depth_behind(events, pos, end, depth as int) as nat,
            resource,
        ),
    decreases end - pos,
{
    if pos < end {
        let known = |name: Seq<char>| resource_knows(name);
        lemma_passed_over_last(events, pos, end, depth as int, known);
        lemma_resource_skips_unknown(events, pos, end - 1, depth, resource);
    }
}

/// A table passes over events that it has no use for in the same way.
pub proof fn lemma_table_skips_unknown(
    events: EventsView,
    pos: int,
    end: int,
    depth: nat,
    table: TableView,
)
    requires
        passed_over(events, pos, end, depth as int, |name: Seq<char>| table_knows(name)),
    ensures
        depth_behind(events, pos, end, depth as int) >= 0,
        table_from(events, pos, depth, table) == table_from(
            events,
            end,
            depth_behind(events, pos, end, depth as int) as nat,
            table,
        ),
    decreases end - pos,
{
    if pos < end {
        let known = |name: Seq<char>| table_knows(name);
        lemma_passed_over_last(events, pos, end, depth as int, known);
        lemma_table_skips_unknown(events, pos, end - 1, depth, table);
    }
}

/// A column passes over events that it has no use for in the same way.
pub proof fn lemma_field_skips_unknown(
    events: EventsView,
    pos: int,
    end: int,
    depth: nat,
    field: FieldView,
)
    requires
        passed_over(events, pos, end, depth as int, |name: Seq<char>| field_knows(name)),
    ensures
        depth_behind(events, pos, end, depth as int) >= 0,
        field_from(events, pos, depth, field) == field_from(
            events,
            end,
            depth_behind(events, pos, end, depth as int) as nat,
            field,
        ),
    decreases end - pos,
{
    if pos < end {
        let known = |name: Seq<char>| field_knows(name);
        lemma_passed_over_last(events, pos, end, depth as int, known);
        lemma_field_skips_unknown(events, pos, end - 1, depth, field);
    }
}

/// A `DATA` element passes over events that it has no use for in the same
/// way.
pub proof fn lemma_data_skips_unknown(
    fields: Seq<FieldView>,
    events: EventsView,
    pos: int,
    end: int,
    depth: nat,
    rows: Seq<Seq<CellView>>,
)
    requires
        passed_over(events, pos, end, depth as int, |name: Seq<char>| data_knows(name)),
    ensures
        depth_behind(events, pos, end, depth as int) >= 0,
        data_from(fields, events, pos, depth, rows) == data_from(
            fields,
            events,
            end,
            depth_behind(events, pos, end, depth as int) as nat,
            rows,
        ),
    decreases end - pos,
{
    if pos < end {
        let known = |name: Seq<char>| data_knows(name);
        lemma_passed_over_last(events, pos, end, depth as int, known);
        lemma_data_skips_unknown(fields, events, pos, end - 1, depth, rows);
    }
}

/// A `BINARY` element passes over events that it has no use for in the same
/// way.
pub proof fn lemma_binary_skips_unknown(
    fields: Seq<FieldView>,
    events: EventsView,
    pos: int,
    end: int,
    depth: nat,
    rows: Seq<Seq<CellView>>,
)
    requires
        passed_over(events, pos, end, depth as int, |name: Seq<char>| binary_knows(name)),
    ensures
        depth_behind(events, pos, end, depth as int) >= 0,
        binary_from(fields, events, pos, depth, rows) == binary_from(
            fields,
            events,
            end,
            depth_behind(events, pos, end, depth as int) as nat,
            rows,
        ),
    decreases end - pos,
{
    if pos < end {
        let known = |name: Seq<char>| binary_knows(name);
        lemma_passed_over_last(events, pos, end, depth as int, known);
        lemma_binary_skips_unknown(fields, events, pos, end - 1, depth, rows);
    }
}

/// A block that a resource does not know, whatever nests in it, does not
/// keep the table behind it from the resource: where the events from `pos`
/// up to `end` are unknown to the resource and leave its depth as it was,
/// and a `TABLE` element follows that reads as `table`, the resource goes
/// on behind that element with `table` added to what it had built.
pub proof fn lemma_table_behind_unknown_block(
    events: EventsView,
    pos: int,
    end: int,
    depth: nat,
    resource: ResourceView,
)
    requires
        passed_over(events, pos, end, depth as int, |name: Seq<char>| resource_knows(name)),
        depth_behind(events, pos, end, depth as int) == depth,
        within(events, end),
        events.tokens[end] matches TokenView::Start { name, .. } && name == "TABLE"@,
        table_from(events, end + 1, 0, TableView::blank()) is Ok,
    ensures
        ({
            let (table, next) = table_from(events, end + 1, 0, TableView::blank())->Ok_0;
            &&& end < next <= events.tokens.len()
            &&& resource_from(events, pos, depth, resource) == resource_from(
                events,
                next,
                depth,
                ResourceView { tables: resource.tables.push(table), ..resource },
            )
        }),
{
    reveal_strlit("TABLE");
    reveal_strlit("DESCRIPTION");
    reveal_strlit("INFO");
    lemma_resource_skips_unknown(events, pos, end, depth, resource);
    lemma_table_advances(events, end + 1, 0, TableView::blank());
    assert("TABLE"@.len() == 5 && "DESCRIPTION"@.len() == 11 && "INFO"@.len() == 4);
}

} // verus!
