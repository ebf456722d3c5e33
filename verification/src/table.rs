//! The in-memory table: named, typed columns over rows of scalars.

use vstd::prelude::*;
use crate::value::{conforms, copy_value, rows_view, same_text, texts_view, Cell, ColumnType, Datum, Value};

verus! {

/// A table as contracts speak of it: the names and types of its columns, in
/// order, and its rows, each a scalar per column.
pub struct Relation {
    pub names: Seq<Seq<u8>>,
    pub types: Seq<ColumnType>,
    pub rows: Seq<Seq<Datum>>,
}

/// No name occurs twice.
pub open spec fn distinct(names: Seq<Seq<u8>>) -> bool {
    forall|i: int, j: int| 0 <= i < j < names.len() ==> names[i] != names[j]
}

/// A row has one scalar per column, each of its column's type or absent.
pub open spec fn row_fits(row: Seq<Datum>, types: Seq<ColumnType>) -> bool {
    &&& row.len() == types.len()
    &&& forall|c: int| 0 <= c < row.len() ==> conforms(#[trigger] row[c], types[c])
}

impl Relation {
    /// The invariant of a table: one type per name, no name twice, and every
    /// row fits the columns.
    pub open spec fn well_formed(self) -> bool {
        &&& self.names.len() == self.types.len()
        &&& distinct(self.names)
        &&& forall|r: int| 0 <= r < self.rows.len() ==> row_fits(#[trigger] self.rows[r], self.types)
    }
}

/// An in-memory table, and the result of a query.
#[derive(Debug, PartialEq, Eq)]
pub struct DataSet {
    names: Vec<Vec<u8>>,
    types: Vec<ColumnType>,
    rows: Vec<Vec<Value>>,
}

impl View for DataSet {
    type V = Relation;

    closed spec fn view(&self) -> Relation {
        Relation {
            names: texts_view(self.names@),
            types: self.types@,
            rows: rows_view(self.rows@),
        }
    }
}

/// Whether a scalar may stand in a column of the given type.
pub fn value_conforms(v: &Value, t: ColumnType) -> (ok: bool)
    ensures
        ok == conforms(v@, t),
{
    match v {
        Cell::Absent => true,
        Cell::Boolean(_) => t == ColumnType::Boolean,
        Cell::Number(_) => t == ColumnType::Numeric,
        Cell::Text(_) => t == ColumnType::Text,
        Cell::Temporal(d) => t == ColumnType::Temporal && d.is_valid(),
    }
}

/// Whether no name occurs twice.
pub fn names_distinct(names: &Vec<Vec<u8>>) -> (ok: bool)
    ensures
        ok == distinct(texts_view(names@)),
{
    let mut j: usize = 0;
    while j < names.len()
        invariant
            j <= names.len(),
            forall|a: int, b: int| 0 <= a < b < j ==> texts_view(names@)[a] != texts_view(names@)[b],
        decreases names.len() - j,
    {
        let mut i: usize = 0;
        while i < j
            invariant
                i <= j < names.len(),
                forall|a: int| 0 <= a < i ==> texts_view(names@)[a] != texts_view(names@)[j as int],
            decreases j - i,
        {
            if same_text(&names[i], &names[j]) {
                assert(texts_view(names@)[i as int] == texts_view(names@)[j as int]);
                return false;
            }
            i += 1;
        }
        j += 1;
    }
    true
}

/// Whether a row has one scalar per column, each of its column's type.
pub fn row_conforms(row: &Vec<Value>, types: &Vec<ColumnType>) -> (ok: bool)
    ensures
        ok == row_fits(crate::value::row_view(row@), types@),
{
    if row.len() != types.len() {
        return false;
    }
    let mut c: usize = 0;
    while c < row.len()
        invariant
            c <= row.len(),
            row.len() == types.len(),
            forall|k: int| 0 <= k < c ==> conforms(#[trigger] crate::value::row_view(row@)[k], types[k]),
        decreases row.len() - c,
    {
        if !value_conforms(&row[c], types[c]) {
            assert(!conforms(crate::value::row_view(row@)[c as int], types[c as int]));
            return false;
        }
        c += 1;
    }
    true
}

impl DataSet {
    /// The invariant of the table.
    pub open spec fn wf(&self) -> bool {
        self@.well_formed()
    }

    /// A table of the given columns and rows; `None` unless there is one
    /// type per name, no name occurs twice, and every row fits the columns.
    pub fn new(names: Vec<Vec<u8>>, types: Vec<ColumnType>, rows: Vec<Vec<Value>>) -> (out: Option<
        DataSet,
    >)
        ensures
            ({
                let rel = Relation {
                    names: texts_view(names@),
                    types: types@,
                    rows: rows_view(rows@),
                };
                match out {
                    Some(t) => rel.well_formed() && t@ == rel && t.wf(),
                    None => !rel.well_formed(),
                }
            }),
    {
        if names.len() != types.len() {
            return None;
        }
        if !names_distinct(&names) {
            return None;
        }
        let mut r: usize = 0;
        while r < rows.len()
            invariant
                r <= rows.len(),
                forall|k: int| 0 <= k < r ==> row_fits(#[trigger] rows_view(rows@)[k], types@),
            decreases rows.len() - r,
        {
            assert(rows_view(rows@)[r as int] == crate::value::row_view(rows[r as int]@));
            if !row_conforms(&rows[r], &types) {
                proof {
                    let rel = Relation {
                        names: texts_view(names@),
                        types: types@,
                        rows: rows_view(rows@),
                    };
                    assert(!row_fits(rel.rows[r as int], rel.types));
                }
                return None;
            }
            r += 1;
        }
        Some(DataSet { names, types, rows })
    }

    /// Whether the table keeps its invariant.
    pub fn is_well_formed(&self) -> (ok: bool)
        ensures
            ok == self.wf(),
    {
        if self.names.len() != self.types.len() {
            return false;
        }
        if !names_distinct(&self.names) {
            return false;
        }
        let mut r: usize = 0;
        while r < self.rows.len()
            invariant
                r <= self.rows.len(),
                forall|k: int| 0 <= k < r ==> row_fits(#[trigger] self@.rows[k], self@.types),
            decreases self.rows.len() - r,
        {
            assert(self@.rows[r as int] == crate::value::row_view(self.rows[r as int]@));
            if !row_conforms(&self.rows[r], &self.types) {
                return false;
            }
            r += 1;
        }
        true
    }

    /// The table from its parts, which the caller has shown to be well formed.
    pub(crate) fn from_parts(
        names: Vec<Vec<u8>>,
        types: Vec<ColumnType>,
        rows: Vec<Vec<Value>>,
    ) -> (out: DataSet)
        requires
            (Relation {
                names: texts_view(names@),
                types: types@,
                rows: rows_view(rows@),
            }).well_formed(),
        ensures
            out.wf(),
            out@ == (Relation {
                names: texts_view(names@),
                types: types@,
                rows: rows_view(rows@),
            }),
    {
        DataSet { names, types, rows }
    }

    /// The parts of the table.
    pub(crate) fn into_parts(self) -> (out: (Vec<Vec<u8>>, Vec<ColumnType>, Vec<Vec<Value>>))
        ensures
            self@ == (Relation {
                names: texts_view(out.0@),
                types: out.1@,
                rows: rows_view(out.2@),
            }),
    {
        (self.names, self.types, self.rows)
    }

    /// The number of columns.
    pub fn width(&self) -> (n: usize)
        ensures
            n == self@.names.len(),
    {
        self.names.len()
    }

    /// The number of rows.
    pub fn height(&self) -> (n: usize)
        ensures
            n == self@.rows.len(),
    {
        self.rows.len()
    }

    /// The names of the columns, in order.
    pub fn column_names(&self) -> (names: &Vec<Vec<u8>>)
        ensures
            texts_view(names@) == self@.names,
    {
        &self.names
    }

    /// The types of the columns, in order.
    pub fn column_types(&self) -> (types: &Vec<ColumnType>)
        ensures
            types@ == self@.types,
    {
        &self.types
    }

    /// The rows, in order.
    pub fn rows(&self) -> (rows: &Vec<Vec<Value>>)
        ensures
            rows_view(rows@) == self@.rows,
    {
        &self.rows
    }

    /// The name of a column; `None` where the table has no such column.
    pub fn column_name(&self, column: usize) -> (name: Option<&Vec<u8>>)
        ensures
            match name {
                Some(n) => column < self@.names.len() && n@ == self@.names[column as int],
                None => column >= self@.names.len(),
            },
    {
        if column < self.names.len() {
            Some(&self.names[column])
        } else {
            None
        }
    }

    /// The type of a column; `None` where the table has no such column.
    pub fn column_type(&self, column: usize) -> (kind: Option<ColumnType>)
        ensures
            match kind {
                Some(t) => column < self@.types.len() && t == self@.types[column as int],
                None => column >= self@.types.len(),
            },
    {
        if column < self.types.len() {
            Some(self.types[column])
        } else {
            None
        }
    }

    /// The scalar in a row and a column; `None` where the table has no such
    /// row, or the row no such column.
    pub fn cell(&self, row: usize, column: usize) -> (out: Option<Value>)
        ensures
            match out {
                Some(v) => row < self@.rows.len() && column < self@.rows[row as int].len() && v@
                    == self@.rows[row as int][column as int],
                None => row >= self@.rows.len() || column >= self@.rows[row as int].len(),
            },
    {
        if row < self.rows.len() {
            assert(rows_view(self.rows@)[row as int] == crate::value::row_view(self.rows[row as int]@));
            if column < self.rows[row].len() {
                Some(copy_value(&self.rows[row][column]))
            } else {
                None
            }
        } else {
            None
        }
    }
}

} // verus!
