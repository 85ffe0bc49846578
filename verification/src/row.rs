//! A row read together with the columns of its table, so that a cell can be
//! asked for by what its column is called.

use vstd::prelude::*;
use crate::data::{Cell, CellView, OwnedRow};
use crate::schema::{Field, FieldView};
use crate::text::same_text;
use crate::tree::{Table, TableView};

verus! {

/// One row of a table, with the table's columns. The cell at a position
/// belongs to the column at the same position.
#[derive(Debug, Clone, Copy)]
pub struct Row<'a> {
    pub fields: &'a [Field],
    pub row: &'a OwnedRow,
}

/// The mathematical content of a [`Row`].
pub struct RowView {
    pub fields: Seq<FieldView>,
    pub cells: Seq<CellView>,
}

impl<'a> DeepView for Row<'a> {
    type V = RowView;

    open spec fn deep_view(&self) -> RowView {
        RowView { fields: self.fields.deep_view(), cells: self.row.deep_view() }
    }
}

/// The names that a column can be asked for by.
pub enum Key {
    /// The unified content descriptor of the column.
    Ucd,
    /// The `ID` attribute of the column.
    Id,
    /// The `name` attribute of the column.
    Name,
}

impl FieldView {
    /// What the column is called under `key`, if anything.
    pub open spec fn called(self, key: Key) -> Option<Seq<char>> {
        match key {
            Key::Ucd => self.ucd,
            Key::Id => self.id,
            Key::Name => self.name,
        }
    }
}

impl RowView {
    /// The number of positions that have both a column and a cell.
    pub open spec fn width(self) -> int {
        if self.fields.len() <= self.cells.len() {
            self.fields.len() as int
        } else {
            self.cells.len() as int
        }
    }

    /// The cell of the first column from `from` on that is called exactly
    /// `wanted` under `key`.
    pub open spec fn lookup_from(self, key: Key, wanted: Seq<char>, from: int) -> Option<CellView>
        decreases self.width() - from,
    {
        if from < 0 || from >= self.width() {
            None
        } else if self.fields[from].called(key) == Some(wanted) {
            Some(self.cells[from])
        } else {
            self.lookup_from(key, wanted, from + 1)
        }
    }

    /// The cell of the first column that is called exactly `wanted` under
    /// `key`.
    pub open spec fn lookup(self, key: Key, wanted: Seq<char>) -> Option<CellView> {
        self.lookup_from(key, wanted, 0)
    }
}

/// What a table gives for its row at `i`.
pub open spec fn row_of(table: TableView, i: int) -> RowView {
    RowView { fields: table.fields, cells: table.data.unwrap()[i] }
}

/// The rows of a table, each with the table's columns; none for a table
/// without data.
pub open spec fn rows_of_table(table: TableView) -> Seq<RowView> {
    match table.data {
        Some(rows) => Seq::new(rows.len(), |i: int| row_of(table, i)),
        None => Seq::empty(),
    }
}

impl Table {
    /// The rows of the table, each with the table's columns, where the
    /// document held data for it.
    pub fn rows(&self) -> (r: Option<Vec<Row<'_>>>)
        ensures
            r.is_some() == self.deep_view().data.is_some(),
            r matches Some(rows) ==> rows.deep_view() == rows_of_table(self.deep_view()),
    {
        match &self.data {
            None => None,
            Some(data) => {
                let fields = self.fields.as_slice();
                let mut rows: Vec<Row<'_>> = Vec::new();
                let mut i: usize = 0;
                while i < data.rows.len()
                    invariant
                        i <= data.rows.len(),
                        self.data == Some(*data),
                        fields.deep_view() == self.fields.deep_view(),
                        rows.deep_view() =~= Seq::new(
                            i as nat,
                            |k: int| row_of(self.deep_view(), k),
                        ),
                    decreases data.rows.len() - i,
                {
                    let row = Row { fields, row: &data.rows[i] };
                    let ghost before = rows.deep_view();
                    rows.push(row);
                    assert(rows.deep_view() =~= before.push(row.deep_view()));
                    i = i + 1;
                }
                Some(rows)
            },
        }
    }
}

impl<'a> Row<'a> {
    /// The cell of the first column that is called exactly `wanted` under
    /// `key`.
    fn get_by(&self, key: Key, wanted: &str) -> (r: Option<&'a Cell>)
        ensures
            r.deep_view() == self.deep_view().lookup(key, wanted@),
    {
        let n = if self.fields.len() <= self.row.cells.len() {
            self.fields.len()
        } else {
            self.row.cells.len()
        };
        let mut i: usize = 0;
        while i < n
            invariant
                i <= n,
                n == self.deep_view().width(),
                self.deep_view().lookup(key, wanted@) == self.deep_view().lookup_from(
                    key,
                    wanted@,
                    i as int,
                ),
            decreases n - i,
        {
            let field = &self.fields[i];
            let called = match key {
                Key::Ucd => &field.ucd,
                Key::Id => &field.id,
                Key::Name => &field.name,
            };
            let found = match called {
                Some(text) => same_text(text.as_str(), wanted),
                None => false,
            };
            if found {
                return Some(&self.row.cells[i]);
            }
            i = i + 1;
        }
        None
    }

    /// The cell of the first column whose unified content descriptor is
    /// exactly `ucd`.
    pub fn get_by_ucd(&self, ucd: &str) -> (r: Option<&'a Cell>)
        ensures
            r.deep_view() == self.deep_view().lookup(Key::Ucd, ucd@),
    {
        self.get_by(Key::Ucd, ucd)
    }

    /// The cell of the first column whose `ID` is exactly `id`.
    pub fn get_by_id(&self, id: &str) -> (r: Option<&'a Cell>)
        ensures
            r.deep_view() == self.deep_view().lookup(Key::Id, id@),
    {
        self.get_by(Key::Id, id)
    }

    /// The cell of the first column whose `name` is exactly `name`.
    pub fn get_by_name(&self, name: &str) -> (r: Option<&'a Cell>)
        ensures
            r.deep_view() == self.deep_view().lookup(Key::Name, name@),
    {
        self.get_by(Key::Name, name)
    }
}

/// A lookup finds the first column of that name, and finds nothing only
/// where no column with a cell has it.
pub proof fn lemma_lookup(row: RowView, key: Key, wanted: Seq<char>, from: int)
    requires
        0 <= from,
    ensures
        match row.lookup_from(key, wanted, from) {
            Some(cell) => exists|i: int|
                from <= i < row.width() && row.fields[i].called(key) == Some(wanted) && cell
                    == row.cells[i] && forall|j: int|
                    from <= j < i ==> row.fields[j].called(key) != Some(wanted),
            None => forall|j: int|
                from <= j < row.width() ==> row.fields[j].called(key) != Some(wanted),
        },
    decreases row.width() - from,
{
    if from < row.width() && row.fields[from].called(key) != Some(wanted) {
        lemma_lookup(row, key, wanted, from + 1);
    }
}

} // verus!
