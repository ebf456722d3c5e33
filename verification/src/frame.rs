//! Structured records, read by polars into a data frame, and from there
//! into records of text that the loader makes a table of.
//!
//! A data frame is a collection of an outside crate: what it holds has a
//! name, `frame_names` and `frame_cells`, and the functions that read it
//! are stated over those names and not proved. Which data frame polars
//! reads from given bytes is not stated at all.

use vstd::prelude::*;
use polars::prelude::{AnyValue, DataFrame, JsonReader, PolarsError, SerReader};
use crate::decode::records_view;
use crate::load::{sniff, ContentKind};
use crate::nesting::{nesting, MAX_NESTING};
use crate::text::{render, render_value, writable};
use crate::value::{texts_view, Cell, Datum, Value};

verus! {

/// A data frame of polars. What is in it is not seen here: it is read
/// through the functions below.
#[verifier::external_body]
pub struct Frame {
    inner: DataFrame,
}

/// The error of polars.
#[verifier::external_type_specification]
#[verifier::external_body]
pub struct ExPolarsError(PolarsError);

/// The names of the columns of a data frame, in order, as UTF-8 bytes.
pub uninterp spec fn frame_names(frame: Frame) -> Seq<Seq<u8>>;

/// The rows of a data frame, each with one entry per column: absent for a
/// null, a truth value, a whole number of 64 bits or a text for a value of
/// that type, and `None` for a value of any other type.
pub uninterp spec fn frame_cells(frame: Frame) -> Seq<Seq<Option<Datum>>>;

/// `JsonReader::new(..).finish()` of polars, on a cursor over the bytes: the
/// data frame that the JSON text holds, one row per object of its list and
/// one column per key, or the error with which the text is refused. Nothing
/// is claimed of which it is.
///
/// The bytes must open, after white space, with a brace or a bracket. Their
/// first byte is then none that opens a byte-order mark or the signature
/// of compressed data, which polars would try to unpack and, built as it
/// is here, cannot. Their lists and records must be nested no deeper than
/// `MAX_NESTING`, since the reader descends once per level. Whole numbers
/// beyond 64 bits are read as numbers of 128 bits, for which polars is
/// built here.
#[verifier::external_body]
pub(crate) fn read_json_frame(bytes: &Vec<u8>) -> (out: Result<Frame, PolarsError>)
    requires
        fit_to_read(bytes@),
{
    JsonReader::new(std::io::Cursor::new(bytes.as_slice())).finish().map(|inner| Frame { inner })
}

/// Whether bytes open, after white space, with a brace or a bracket.
pub open spec fn opens_structured(bytes: Seq<u8>) -> bool {
    sniff(bytes) == Some(ContentKind::StructuredRecord)
}

/// Whether bytes are handed to the reader of structured records: they open
/// with a brace or a bracket, and are nested no deeper than `MAX_NESTING`.
pub open spec fn fit_to_read(bytes: Seq<u8>) -> bool {
    opens_structured(bytes) && nesting(bytes) <= MAX_NESTING
}

/// `DataFrame::width` of polars: the number of columns.
#[verifier::external_body]
fn frame_width(frame: &Frame) -> (n: usize)
    ensures
        n == frame_names(*frame).len(),
{
    frame.inner.width()
}

/// `DataFrame::height` of polars: the number of rows.
#[verifier::external_body]
fn frame_height(frame: &Frame) -> (n: usize)
    ensures
        n == frame_cells(*frame).len(),
{
    frame.inner.height()
}

/// `Column::name` of polars, on a column of `DataFrame::columns`: the name
/// of a column, copied out as bytes.
#[verifier::external_body]
fn frame_name(frame: &Frame, column: usize) -> (name: Vec<u8>)
    requires
        column < frame_names(*frame).len(),
    ensures
        name@ == frame_names(*frame)[column as int],
{
    frame.inner.columns()[column].name().as_bytes().to_vec()
}

/// `Column::get` of polars, on a column of `DataFrame::columns`: the value
/// in a row and a column, variant by variant; `None` for a variant that is
/// none of null, boolean, 64-bit integer and string, and for an index that
/// polars refuses.
#[verifier::external_body]
fn frame_cell(frame: &Frame, row: usize, column: usize) -> (out: Option<Value>)
    requires
        row < frame_cells(*frame).len(),
        column < frame_names(*frame).len(),
    ensures
        match out {
            Some(v) => frame_cells(*frame)[row as int][column as int] == Some(v@),
            None => frame_cells(*frame)[row as int][column as int] is None,
        },
{
    match frame.inner.columns()[column].get(row) {
        Ok(AnyValue::Null) => Some(Cell::Absent),
        Ok(AnyValue::Boolean(b)) => Some(Cell::Boolean(b)),
        Ok(AnyValue::Int64(n)) => Some(Cell::Number(n)),
        Ok(AnyValue::String(s)) => Some(Cell::Text(s.as_bytes().to_vec())),
        Ok(AnyValue::StringOwned(s)) => Some(Cell::Text(s.as_bytes().to_vec())),
        _ => None,
    }
}

/// Whether a cell of a data frame can be written as text: it is of a type
/// that a table holds.
pub open spec fn cell_held(cell: Option<Datum>) -> bool {
    cell matches Some(v) && writable(v)
}

/// The first row from `from` on that has, among its first `width` cells,
/// one that cannot be written.
pub open spec fn cells_fault_from(cells: Seq<Seq<Option<Datum>>>, width: int, from: int) -> Option<
    int,
>
    decreases cells.len() - from,
{
    if from < 0 || from >= cells.len() {
        None
    } else if exists|c: int| 0 <= c < width && !cell_held(#[trigger] cells[from][c]) {
        Some(from)
    } else {
        cells_fault_from(cells, width, from + 1)
    }
}

/// The text of a cell of a data frame.
pub open spec fn cell_text(cell: Option<Datum>) -> Seq<u8> {
    match cell {
        Some(v) => render(v),
        None => Seq::empty(),
    }
}

/// The records of a data frame: the names of its columns, then each row as
/// texts.
pub open spec fn cells_records(names: Seq<Seq<u8>>, cells: Seq<Seq<Option<Datum>>>) -> Seq<
    Seq<Seq<u8>>,
> {
    seq![names] + Seq::new(
        cells.len(),
        |r: int| Seq::new(names.len(), |c: int| cell_text(cells[r][c])),
    )
}

/// The records that a data frame with the given names and rows holds, or
/// the first row with a value that cannot be written.
pub open spec fn cells_outcome(names: Seq<Seq<u8>>, cells: Seq<Seq<Option<Datum>>>) -> Result<
    Seq<Seq<Seq<u8>>>,
    usize,
> {
    match cells_fault_from(cells, names.len() as int, 0) {
        Some(r) => Err(r as usize),
        None => Ok(cells_records(names, cells)),
    }
}

/// The texts of one row of a data frame, or nothing where the row has a
/// value that cannot be written.
fn frame_row(frame: &Frame, row: usize, width: usize) -> (out: Option<Vec<Vec<u8>>>)
    requires
        row < frame_cells(*frame).len(),
        width == frame_names(*frame).len(),
    ensures
        match out {
            Some(fields) => {
                &&& forall|c: int|
                    0 <= c < width ==> cell_held(#[trigger] frame_cells(*frame)[row as int][c])
                &&& texts_view(fields@) == Seq::new(
                    width as nat,
                    |c: int| cell_text(frame_cells(*frame)[row as int][c]),
                )
            },
            None => exists|c: int|
                0 <= c < width && !cell_held(#[trigger] frame_cells(*frame)[row as int][c]),
        },
{
    let ghost cells = frame_cells(*frame)[row as int];
    let mut fields: Vec<Vec<u8>> = Vec::new();
    let mut c: usize = 0;
    while c < width
        invariant
            c <= width,
            row < frame_cells(*frame).len(),
            width == frame_names(*frame).len(),
            cells == frame_cells(*frame)[row as int],
            fields.len() == c,
            forall|k: int| 0 <= k < c ==> cell_held(#[trigger] cells[k]),
            forall|k: int| 0 <= k < c ==> fields[k]@ == cell_text(cells[k]),
        decreases width - c,
    {
        match frame_cell(frame, row, c) {
            None => {
                assert(!cell_held(cells[c as int]));
                return None;
            },
            Some(v) => {
                let fine: bool = match &v {
                    Cell::Temporal(d) => d.is_valid(),
                    _ => true,
                };
                if !fine {
                    assert(!cell_held(cells[c as int]));
                    return None;
                }
                fields.push(render_value(&v));
            },
        }
        c += 1;
    }
    assert(texts_view(fields@) =~= Seq::new(width as nat, |c: int| cell_text(cells[c])));
    Some(fields)
}

/// The records of a data frame: the names of its columns, then each row
/// with its values written as text; or the first row with a value that
/// cannot be written.
pub fn frame_records(frame: &Frame) -> (out: Result<Vec<Vec<Vec<u8>>>, usize>)
    ensures
        match out {
            Ok(records) => cells_outcome(frame_names(*frame), frame_cells(*frame)) == Ok::<
                Seq<Seq<Seq<u8>>>,
                usize,
            >(records_view(records@)),
            Err(r) => cells_outcome(frame_names(*frame), frame_cells(*frame)) == Err::<
                Seq<Seq<Seq<u8>>>,
                usize,
            >(r),
        },
{
    let ghost names = frame_names(*frame);
    let ghost cells = frame_cells(*frame);
    let width: usize = frame_width(frame);
    let height: usize = frame_height(frame);
    let mut header: Vec<Vec<u8>> = Vec::new();
    let mut c: usize = 0;
    while c < width
        invariant
            c <= width,
            width == frame_names(*frame).len(),
            header.len() == c,
            forall|k: int| 0 <= k < c ==> header[k]@ == frame_names(*frame)[k],
        decreases width - c,
    {
        header.push(frame_name(frame, c));
        c += 1;
    }
    assert(texts_view(header@) =~= names);
    let mut records: Vec<Vec<Vec<u8>>> = Vec::new();
    records.push(header);
    let mut r: usize = 0;
    while r < height
        invariant
            r <= height,
            names == frame_names(*frame),
            cells == frame_cells(*frame),
            width == names.len(),
            height == cells.len(),
            cells_fault_from(cells, width as int, 0) == cells_fault_from(cells, width as int, r as int),
            records.len() == r + 1,
            texts_view(records[0]@) == names,
            forall|k: int|
                1 <= k < r + 1 ==> texts_view(#[trigger] records[k]@) == Seq::new(
                    width as nat,
                    |c: int| cell_text(cells[k - 1][c]),
                ),
        decreases height - r,
    {
        match frame_row(frame, r, width) {
            None => {
                return Err(r);
            },
            Some(fields) => {
                records.push(fields);
            },
        }
        r += 1;
    }
    proof {
        let built = records_view(records@);
        let stated = cells_records(names, cells);
        assert(built.len() == stated.len());
        assert forall|i: int| 0 <= i < built.len() implies built[i] == stated[i] by {
            if i > 0 {
                assert(built[i] == texts_view(records[i]@));
            }
        }
        assert(built =~= stated);
    }
    Ok(records)
}

} // verus!
