//! The loader: what kind of content a source holds, and the table that the
//! content holds. Delimited text is read here; structured records are read
//! by an outside crate into a data frame, and the data frame is made a table
//! here.
//!
//! The first record names the columns. A column's type is the narrowest that
//! every value of the column can be read as: truth value, then number, then
//! date, and text where none of them fits or the column has no value. An
//! empty field is an absent value.

use vstd::prelude::*;
use crate::decode::{decode, decode_records, records_view};
use crate::error::{Failure, QueryError, Refusal};
use crate::frame::{
    cells_outcome, fit_to_read, frame_cells, frame_names, frame_records, read_json_frame, Frame,
};
use crate::nesting::{nests_within, MAX_NESTING};
use crate::table::{distinct, names_distinct, row_fits, DataSet, Relation};
use crate::text::{parse_as, read_as};
use crate::value::{conforms, copy_text, row_view, rows_view, texts_view, Cell, ColumnType, Datum, Value};

verus! {

/// The format of a source's content.
#[derive(Clone, Copy, Debug, PartialEq, Eq, Structural)]
pub enum ContentKind {
    /// Rows of fields separated by commas, the first row naming the columns.
    DelimitedText,
    /// A list of records, each with named values.
    StructuredRecord,
}

/// Whether a byte is white space: a space, a tab, a line feed or a carriage
/// return.
pub open spec fn is_blank(b: u8) -> bool {
    b == 32 || b == 9 || b == 10 || b == 13
}

/// The first byte from `from` on that is no white space.
pub open spec fn first_significant_from(bytes: Seq<u8>, from: int) -> Option<u8>
    decreases bytes.len() - from,
{
    if from < 0 || from >= bytes.len() {
        None
    } else if is_blank(bytes[from]) {
        first_significant_from(bytes, from + 1)
    } else {
        Some(bytes[from])
    }
}

/// The kind of a content, by its first byte that is no white space: a brace
/// or a bracket opens structured records, a control byte opens nothing that
/// is known, and any other byte opens delimited text. A content of white
/// space alone is of no kind.
pub open spec fn sniff(bytes: Seq<u8>) -> Option<ContentKind> {
    match first_significant_from(bytes, 0) {
        None => None,
        Some(b) => if b == 123 || b == 91 {
            Some(ContentKind::StructuredRecord)
        } else if b < 32 || b == 127 {
            None
        } else {
            Some(ContentKind::DelimitedText)
        },
    }
}

/// The kind of a content.
pub fn detect_content(bytes: &Vec<u8>) -> (kind: Option<ContentKind>)
    ensures
        kind == sniff(bytes@),
{
    let mut i: usize = 0;
    while i < bytes.len()
        invariant
            i <= bytes.len(),
            first_significant_from(bytes@, 0) == first_significant_from(bytes@, i as int),
        decreases bytes.len() - i,
    {
        let b: u8 = bytes[i];
        if !(b == 32 || b == 9 || b == 10 || b == 13) {
            if b == 123 || b == 91 {
                return Some(ContentKind::StructuredRecord);
            } else if b < 32 || b == 127 {
                return None;
            } else {
                return Some(ContentKind::DelimitedText);
            }
        }
        i += 1;
    }
    None
}

/// The first record from `from` on that has not as many fields as the
/// first record of all.
pub open spec fn first_uneven_from(records: Seq<Seq<Seq<u8>>>, from: int) -> Option<int>
    decreases records.len() - from,
{
    if from < 1 || from >= records.len() {
        None
    } else if records[from].len() != records[0].len() {
        Some(from)
    } else {
        first_uneven_from(records, from + 1)
    }
}

/// Why records are no table: `Some(None)` where there is no header or the
/// header has a name twice, `Some(Some(r))` where row `r`, counted from 0
/// after the header, is the first that has not as many fields as the header.
pub open spec fn shape_fault(records: Seq<Seq<Seq<u8>>>) -> Option<Option<usize>> {
    if records.len() == 0 {
        Some(None)
    } else if !distinct(records[0]) {
        Some(None)
    } else {
        match first_uneven_from(records, 1) {
            Some(r) => Some(Some((r - 1) as usize)),
            None => None,
        }
    }
}

/// Whether a field can stand in a column of type `t`: it is empty, or a
/// value of type `t` as it is written.
pub open spec fn reads_as(field: Seq<u8>, t: ColumnType) -> bool {
    field.len() == 0 || parse_as(field, t) is Some
}

/// Whether every field of column `c` in the rows before record `upto` can
/// stand in a column of type `t`.
pub open spec fn column_reads_as(records: Seq<Seq<Seq<u8>>>, c: int, t: ColumnType, upto: int) -> bool {
    forall|r: int| 1 <= r < upto ==> reads_as((#[trigger] records[r])[c], t)
}

/// Whether every field of column `c` in the rows before record `upto` is
/// empty.
pub open spec fn column_is_empty(records: Seq<Seq<Seq<u8>>>, c: int, upto: int) -> bool {
    forall|r: int| 1 <= r < upto ==> (#[trigger] records[r])[c].len() == 0
}

/// The type of column `c`: text where the column has no value, else the
/// first of truth value, number and date that every value can be read as,
/// and text where there is none.
pub open spec fn infer_type(records: Seq<Seq<Seq<u8>>>, c: int) -> ColumnType {
    let n = records.len() as int;
    if column_is_empty(records, c, n) {
        ColumnType::Text
    } else if column_reads_as(records, c, ColumnType::Boolean, n) {
        ColumnType::Boolean
    } else if column_reads_as(records, c, ColumnType::Numeric, n) {
        ColumnType::Numeric
    } else if column_reads_as(records, c, ColumnType::Temporal, n) {
        ColumnType::Temporal
    } else {
        ColumnType::Text
    }
}

/// The scalar that a field stands for in a column of type `t`: absent for
/// an empty field.
pub open spec fn cell_of(field: Seq<u8>, t: ColumnType) -> Datum {
    if field.len() == 0 {
        Cell::Absent
    } else {
        match parse_as(field, t) {
            Some(v) => v,
            None => Cell::Absent,
        }
    }
}

/// The types of the columns of records.
pub open spec fn records_types(records: Seq<Seq<Seq<u8>>>) -> Seq<ColumnType> {
    Seq::new(records[0].len(), |c: int| infer_type(records, c))
}

/// The row of a table that a record stands for.
pub open spec fn record_row(record: Seq<Seq<u8>>, types: Seq<ColumnType>) -> Seq<Datum> {
    Seq::new(types.len(), |c: int| cell_of(record[c], types[c]))
}

/// The table that records with a header stand for.
pub open spec fn records_table(records: Seq<Seq<Seq<u8>>>) -> Relation {
    let types = records_types(records);
    Relation {
        names: records[0],
        types,
        rows: Seq::new((records.len() - 1) as nat, |r: int| record_row(records[r + 1], types)),
    }
}

/// The row, if any, that an error of the record with the given index names:
/// none for the header.
pub open spec fn fault_row(record: nat) -> Option<usize> {
    if record == 0 {
        None
    } else {
        Some((record - 1) as usize)
    }
}

/// The table that a delimited text holds, or the row at which it has no
/// consistent shape.
pub open spec fn delimited_table(bytes: Seq<u8>) -> Result<Relation, Option<usize>> {
    match decode_records(bytes) {
        Err(at) => Err(fault_row(at)),
        Ok(records) => match shape_fault(records) {
            Some(row) => Err(row),
            None => Ok(records_table(records)),
        },
    }
}

/// The table of records whose shape has no fault is well formed.
pub proof fn lemma_records_table_well_formed(records: Seq<Seq<Seq<u8>>>)
    requires
        shape_fault(records) is None,
    ensures
        records_table(records).well_formed(),
{
    let t = records_table(records);
    assert forall|r: int| 0 <= r < t.rows.len() implies row_fits(#[trigger] t.rows[r], t.types) by {
        assert forall|c: int| 0 <= c < t.rows[r].len() implies conforms(
            #[trigger] t.rows[r][c],
            t.types[c],
        ) by {}
    }
}

/// Where no record from `from` on is uneven, every one has the width of the
/// header.
proof fn lemma_even(records: Seq<Seq<Seq<u8>>>, from: int)
    requires
        1 <= from,
        first_uneven_from(records, from) is None,
    ensures
        forall|r: int| from <= r < records.len() ==> (#[trigger] records[r]).len() == records[0].len(),
    decreases records.len() - from,
{
    if from < records.len() {
        lemma_even(records, from + 1);
    }
}

/// The type of a column.
fn infer_column(records: &Vec<Vec<Vec<u8>>>, c: usize) -> (t: ColumnType)
    requires
        records.len() >= 1,
        forall|r: int| 0 <= r < records.len() ==> c < (#[trigger] records[r]).len(),
    ensures
        t == infer_type(records_view(records@), c as int),
{
    let ghost rv = records_view(records@);
    let mut empty: bool = true;
    let mut truth: bool = true;
    let mut number: bool = true;
    let mut date: bool = true;
    let mut r: usize = 1;
    while r < records.len()
        invariant
            1 <= r <= records.len(),
            rv == records_view(records@),
            forall|k: int| 0 <= k < records.len() ==> c < (#[trigger] records[k]).len(),
            empty == column_is_empty(rv, c as int, r as int),
            truth == column_reads_as(rv, c as int, ColumnType::Boolean, r as int),
            number == column_reads_as(rv, c as int, ColumnType::Numeric, r as int),
            date == column_reads_as(rv, c as int, ColumnType::Temporal, r as int),
        decreases records.len() - r,
    {
        let field: &Vec<u8> = &records[r][c];
        assert(rv[r as int][c as int] == field@);
        let ghost now = r as int;
        if field.len() > 0 {
            empty = false;
            if read_as(field, ColumnType::Boolean).is_none() {
                truth = false;
            }
            if read_as(field, ColumnType::Numeric).is_none() {
                number = false;
            }
            if read_as(field, ColumnType::Temporal).is_none() {
                date = false;
            }
        }
        r += 1;
        proof {
            assert(column_is_empty(rv, c as int, now + 1) == (column_is_empty(rv, c as int, now)
                && rv[now][c as int].len() == 0)) by {
                if column_is_empty(rv, c as int, now) && rv[now][c as int].len() == 0 {
                    assert forall|k: int| 1 <= k < now + 1 implies (#[trigger] rv[k])[c as int].len()
                        == 0 by {}
                }
            }
            lemma_column_step(rv, c as int, ColumnType::Boolean, now);
            lemma_column_step(rv, c as int, ColumnType::Numeric, now);
            lemma_column_step(rv, c as int, ColumnType::Temporal, now);
        }
    }
    if empty {
        ColumnType::Text
    } else if truth {
        ColumnType::Boolean
    } else if number {
        ColumnType::Numeric
    } else if date {
        ColumnType::Temporal
    } else {
        ColumnType::Text
    }
}

/// A column can be read as a type up to one more record where it can up to
/// that record, and the record's field can.
proof fn lemma_column_step(records: Seq<Seq<Seq<u8>>>, c: int, t: ColumnType, now: int)
    requires
        1 <= now,
    ensures
        column_reads_as(records, c, t, now + 1) == (column_reads_as(records, c, t, now) && reads_as(
            records[now][c],
            t,
        )),
{
    if column_reads_as(records, c, t, now) && reads_as(records[now][c], t) {
        assert forall|k: int| 1 <= k < now + 1 implies reads_as((#[trigger] records[k])[c], t) by {}
    }
}

/// The scalar that a field stands for in a column of the given type.
fn read_cell(field: &Vec<u8>, t: ColumnType) -> (out: Value)
    ensures
        out@ == cell_of(field@, t),
{
    if field.len() == 0 {
        Cell::Absent
    } else {
        match read_as(field, t) {
            Some(v) => v,
            None => Cell::Absent,
        }
    }
}

/// The table that records with a header stand for, or the row at which
/// they have no consistent shape.
pub fn build_table(records: &Vec<Vec<Vec<u8>>>) -> (out: Result<DataSet, Option<usize>>)
    ensures
        match out {
            Ok(t) => shape_fault(records_view(records@)) is None && t@ == records_table(
                records_view(records@),
            ) && t.wf(),
            Err(row) => shape_fault(records_view(records@)) == Some(row),
        },
{
    let ghost rv = records_view(records@);
    if records.len() == 0 {
        return Err(None);
    }
    assert(rv[0] == texts_view(records[0]@));
    if !names_distinct(&records[0]) {
        return Err(None);
    }
    let width: usize = records[0].len();
    let mut r: usize = 1;
    while r < records.len()
        invariant
            1 <= r <= records.len(),
            rv == records_view(records@),
            width == records[0].len(),
            distinct(rv[0]),
            first_uneven_from(rv, 1) == first_uneven_from(rv, r as int),
            forall|k: int| 0 <= k < r ==> (#[trigger] records[k]).len() == width,
        decreases records.len() - r,
    {
        assert(rv[r as int].len() == records[r as int].len());
        assert(rv[0].len() == records[0].len());
        if records[r].len() != width {
            return Err(Some(r - 1));
        }
        r += 1;
    }
    let mut types: Vec<ColumnType> = Vec::new();
    let mut c: usize = 0;
    while c < width
        invariant
            c <= width,
            records.len() >= 1,
            rv == records_view(records@),
            forall|k: int| 0 <= k < records.len() ==> (#[trigger] records[k]).len() == width,
            types.len() == c,
            forall|k: int| 0 <= k < c ==> types[k] == infer_type(rv, k),
        decreases width - c,
    {
        types.push(infer_column(records, c));
        c += 1;
    }
    assert(rv[0].len() == width);
    assert(types@ =~= records_types(rv));
    let mut names: Vec<Vec<u8>> = Vec::new();
    let mut n: usize = 0;
    while n < width
        invariant
            n <= width,
            records.len() >= 1,
            width == records[0].len(),
            names.len() == n,
            forall|k: int| 0 <= k < n ==> names[k]@ == records[0][k]@,
        decreases width - n,
    {
        names.push(copy_text(&records[0][n]));
        n += 1;
    }
    assert(texts_view(names@) =~= rv[0]);
    let mut rows: Vec<Vec<Value>> = Vec::new();
    let mut i: usize = 1;
    while i < records.len()
        invariant
            1 <= i <= records.len(),
            rv == records_view(records@),
            forall|k: int| 0 <= k < records.len() ==> (#[trigger] records[k]).len() == width,
            types.len() == width,
            rows.len() == i - 1,
            forall|k: int| 0 <= k < i - 1 ==> row_view(rows[k]@) == record_row(rv[k + 1], types@),
        decreases records.len() - i,
    {
        let mut row: Vec<Value> = Vec::new();
        let mut j: usize = 0;
        assert(rv[i as int] == texts_view(records[i as int]@));
        while j < width
            invariant
                j <= width,
                1 <= i < records.len(),
                rv.len() == records.len(),
                records[i as int].len() == width,
                rv[i as int] == texts_view(records[i as int]@),
                types.len() == width,
                row.len() == j,
                forall|k: int| 0 <= k < j ==> row[k]@ == cell_of(rv[i as int][k], types[k]),
            decreases width - j,
        {
            row.push(read_cell(&records[i][j], types[j]));
            j += 1;
        }
        assert(row_view(row@) =~= record_row(rv[i as int], types@));
        rows.push(row);
        i += 1;
    }
    proof {
        assert(rows_view(rows@) =~= records_table(rv).rows);
        lemma_records_table_well_formed(rv);
    }
    Ok(DataSet::from_parts(names, types, rows))
}

/// Loads delimited text into a table. Fails with a load error, which holds
/// the source's identifier and the row at fault where there is one, where a
/// byte cannot stand where it stands, a quoted field has no end, there is no
/// header, the header has a name twice, or a row has not as many fields as
/// the header.
pub fn load_delimited(source: &Vec<u8>, bytes: &Vec<u8>) -> (out: Result<DataSet, QueryError>)
    ensures
        match out {
            Ok(t) => delimited_table(bytes@) == Ok::<Relation, Option<usize>>(t@) && t.wf(),
            Err(e) => delimited_table(bytes@) is Err && e@ == (Failure::Load {
                source: source@,
                row: delimited_table(bytes@)->Err_0,
            }),
        },
{
    match decode(bytes) {
        Err(at) => {
            let row: Option<usize> = if at == 0 {
                None
            } else {
                Some(at - 1)
            };
            Err(Failure::Load { source: copy_text(source), row })
        },
        Ok(records) => match build_table(&records) {
            Ok(t) => Ok(t),
            Err(row) => Err(Failure::Load { source: copy_text(source), row }),
        },
    }
}

/// The table that a data frame with the given names and rows holds, or the
/// row at which it has no consistent shape: each value is written as text,
/// and the types of the columns are inferred as for delimited text.
pub open spec fn cells_table(names: Seq<Seq<u8>>, cells: Seq<Seq<Option<Datum>>>) -> Result<
    Relation,
    Option<usize>,
> {
    match cells_outcome(names, cells) {
        Err(r) => Err(Some(r)),
        Ok(records) => match shape_fault(records) {
            Some(row) => Err(row),
            None => Ok(records_table(records)),
        },
    }
}

/// The table that a data frame holds. Fails with the row at fault where a
/// value is of a type that a table does not hold, and with no row where the
/// names of the columns are not distinct.
pub fn frame_table(frame: &Frame) -> (out: Result<DataSet, Option<usize>>)
    ensures
        match out {
            Ok(t) => cells_table(frame_names(*frame), frame_cells(*frame)) == Ok::<
                Relation,
                Option<usize>,
            >(t@) && t.wf(),
            Err(row) => cells_table(frame_names(*frame), frame_cells(*frame)) == Err::<
                Relation,
                Option<usize>,
            >(row),
        },
{
    match frame_records(frame) {
        Err(r) => Err(Some(r)),
        Ok(records) => build_table(&records),
    }
}

/// The outcome of loading, as contracts speak of it.
pub open spec fn loaded_view(out: Result<DataSet, QueryError>) -> Result<Relation, Refusal> {
    match out {
        Ok(t) => Ok(t@),
        Err(e) => Err(e@),
    }
}

/// The outcome of loading a data frame with the given names and rows from
/// a source: the table that it holds, or a load error that holds the
/// source's identifier.
pub open spec fn cells_loaded(
    source: Seq<u8>,
    names: Seq<Seq<u8>>,
    cells: Seq<Seq<Option<Datum>>>,
) -> Result<Relation, Refusal> {
    match cells_table(names, cells) {
        Ok(t) => Ok(t),
        Err(row) => Err(Failure::Load { source, row }),
    }
}

/// What holds of the outcome of loading structured records. Bytes that do
/// not open, after white space, with a brace or a bracket, or that are
/// nested deeper than `MAX_NESTING`, give a load error without a row. Of
/// other bytes, which an outside crate reads, the outcome is a load error
/// without a row, or what loading some data frame gives.
pub open spec fn structured_allows(
    source: Seq<u8>,
    bytes: Seq<u8>,
    out: Result<Relation, Refusal>,
) -> bool {
    let refused = Err::<Relation, Refusal>(Failure::Load { source, row: None });
    if fit_to_read(bytes) {
        out == refused || exists|names: Seq<Seq<u8>>, cells: Seq<Seq<Option<Datum>>>|
            out == #[trigger] cells_loaded(source, names, cells)
    } else {
        out == refused
    }
}

/// Loads structured records into a table: polars reads the bytes into a
/// data frame, and the data frame is made a table by `frame_table`. Bytes
/// that do not open with a brace or a bracket, or that are nested too
/// deep, are not handed to polars. Which data frame polars reads is not
/// stated.
pub fn load_structured(source: &Vec<u8>, bytes: &Vec<u8>) -> (out: Result<DataSet, QueryError>)
    ensures
        structured_allows(source@, bytes@, loaded_view(out)),
        out matches Ok(t) ==> t.wf(),
{
    match detect_content(bytes) {
        Some(ContentKind::StructuredRecord) => {},
        _ => {
            return Err(Failure::Load { source: copy_text(source), row: None });
        },
    }
    if !nests_within(bytes, MAX_NESTING) {
        return Err(Failure::Load { source: copy_text(source), row: None });
    }
    match read_json_frame(bytes) {
        Err(_) => Err(Failure::Load { source: copy_text(source), row: None }),
        Ok(frame) => {
            let out = match frame_table(&frame) {
                Ok(t) => Ok(t),
                Err(row) => Err(Failure::Load { source: copy_text(source), row }),
            };
            assert(loaded_view(out) == cells_loaded(
                source@,
                frame_names(frame),
                frame_cells(frame),
            ));
            out
        },
    }
}

/// The outcome of loading delimited text: the table that it holds, or a
/// load error that holds the source's identifier.
pub open spec fn delimited_outcome(source: Seq<u8>, bytes: Seq<u8>) -> Result<Relation, Refusal> {
    match delimited_table(bytes) {
        Ok(t) => Ok(t),
        Err(row) => Err(Failure::Load { source, row }),
    }
}

/// What holds of the outcome of loading the content of a source. Content of
/// no known kind gives an error that holds the source's identifier.
/// Delimited text gives the table that it holds, or a load error. Of
/// structured records holds what `structured_allows` says.
pub open spec fn load_allows(source: Seq<u8>, bytes: Seq<u8>, out: Result<Relation, Refusal>) -> bool {
    match sniff(bytes) {
        None => out == Err::<Relation, Refusal>(Failure::UnrecognizedFormat(source)),
        Some(ContentKind::DelimitedText) => out == delimited_outcome(source, bytes),
        Some(ContentKind::StructuredRecord) => structured_allows(source, bytes, out),
    }
}

/// Loads the content of a source into a table: finds the kind of the
/// content and reads it with the reader of that kind.
pub fn load(source: &Vec<u8>, bytes: &Vec<u8>) -> (out: Result<DataSet, QueryError>)
    ensures
        load_allows(source@, bytes@, loaded_view(out)),
        out matches Ok(t) ==> t.wf(),
{
    match detect_content(bytes) {
        None => Err(Failure::UnrecognizedFormat(copy_text(source))),
        Some(ContentKind::DelimitedText) => {
            let out = load_delimited(source, bytes);
            proof {
                lemma_delimited_well_formed(bytes@);
            }
            out
        },
        Some(ContentKind::StructuredRecord) => load_structured(source, bytes),
    }
}

/// The table that delimited text holds is well formed.
pub proof fn lemma_delimited_well_formed(bytes: Seq<u8>)
    ensures
        delimited_table(bytes) matches Ok(t) ==> t.well_formed(),
{
    if let Ok(records) = decode_records(bytes) {
        if shape_fault(records) is None {
            lemma_records_table_well_formed(records);
        }
    }
}

} // verus!
