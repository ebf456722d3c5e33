//! The serializer: a table as delimited text.
//!
//! The first line holds the names of the columns, each further line one row.
//! Fields are separated by commas and lines end with a line feed. A field is
//! put in double quotes only where it holds a comma, a double quote or one of
//! the two bytes of a line break, and a double quote inside it is doubled.

use vstd::prelude::*;
use vstd::utf8::{encode_utf8, valid_utf8};
use crate::error::{Failure, QueryError};
use crate::table::{DataSet, Relation};
use crate::text::{push_text, render, render_value, writable};
use crate::value::{row_view, rows_view, texts_view, Datum, Value};

verus! {

/// Whether a byte makes a field need quotes: a comma, a double quote, a line
/// feed or a carriage return.
pub open spec fn is_special(b: u8) -> bool {
    b == 44 || b == 34 || b == 10 || b == 13
}

/// Whether a field must be written in quotes.
pub open spec fn needs_quotes(field: Seq<u8>) -> bool {
    exists|i: int| 0 <= i < field.len() && is_special(#[trigger] field[i])
}

/// A field with each double quote doubled.
pub open spec fn escape(field: Seq<u8>) -> Seq<u8>
    decreases field.len(),
{
    if field.len() == 0 {
        Seq::empty()
    } else if field.last() == 34 {
        escape(field.drop_last()).push(34u8).push(34u8)
    } else {
        escape(field.drop_last()).push(field.last())
    }
}

/// A field as it is written.
pub open spec fn encode_field(field: Seq<u8>) -> Seq<u8> {
    if needs_quotes(field) {
        seq![34u8] + escape(field) + seq![34u8]
    } else {
        field
    }
}

/// Fields as they are written, with a comma between two of them.
pub open spec fn join_fields(fields: Seq<Seq<u8>>) -> Seq<u8>
    decreases fields.len(),
{
    if fields.len() == 0 {
        Seq::empty()
    } else if fields.len() == 1 {
        encode_field(fields[0])
    } else {
        join_fields(fields.drop_last()) + seq![44u8] + encode_field(fields.last())
    }
}

/// A record as a line.
pub open spec fn encode_record(fields: Seq<Seq<u8>>) -> Seq<u8> {
    join_fields(fields) + seq![10u8]
}

/// Records as lines, one after the other.
pub open spec fn encode_records(records: Seq<Seq<Seq<u8>>>) -> Seq<u8>
    decreases records.len(),
{
    if records.len() == 0 {
        Seq::empty()
    } else {
        encode_records(records.drop_last()) + encode_record(records.last())
    }
}

/// The scalars of a row as texts.
pub open spec fn render_row(row: Seq<Datum>) -> Seq<Seq<u8>> {
    Seq::new(row.len(), |c: int| render(row[c]))
}

/// The records of a table: the names of its columns, then its rows.
pub open spec fn table_records(t: Relation) -> Seq<Seq<Seq<u8>>> {
    seq![t.names] + Seq::new(t.rows.len(), |r: int| render_row(t.rows[r]))
}

/// A table as delimited text: a header line, then one line per row.
pub open spec fn encode_table(t: Relation) -> Seq<u8> {
    encode_records(table_records(t))
}

/// Whether a field must be written in quotes.
fn field_needs_quotes(field: &Vec<u8>) -> (yes: bool)
    ensures
        yes == needs_quotes(field@),
{
    let mut i: usize = 0;
    while i < field.len()
        invariant
            i <= field.len(),
            forall|k: int| 0 <= k < i ==> !is_special(#[trigger] field[k]),
        decreases field.len() - i,
    {
        let b: u8 = field[i];
        if b == 44 || b == 34 || b == 10 || b == 13 {
            assert(is_special(field@[i as int]));
            return true;
        }
        i += 1;
    }
    false
}

/// Appends a field as it is written.
pub fn push_field(field: &Vec<u8>, out: &mut Vec<u8>)
    ensures
        final(out)@ == old(out)@ + encode_field(field@),
{
    if field_needs_quotes(field) {
        out.push(34);
        let mut i: usize = 0;
        assert(field@.take(0) =~= Seq::<u8>::empty());
        assert(out@ =~= old(out)@ + seq![34u8] + escape(field@.take(0)));
        while i < field.len()
            invariant
                i <= field.len(),
                out@ == old(out)@ + seq![34u8] + escape(field@.take(i as int)),
            decreases field.len() - i,
        {
            let b: u8 = field[i];
            proof {
                let next = field@.take(i + 1);
                assert(next.drop_last() =~= field@.take(i as int));
                assert(next.last() == b);
            }
            if b == 34 {
                out.push(34);
                out.push(34);
            } else {
                out.push(b);
            }
            i += 1;
            assert(out@ =~= old(out)@ + seq![34u8] + escape(field@.take(i as int)));
        }
        assert(field@.take(field.len() as int) =~= field@);
        out.push(34);
        assert(out@ =~= old(out)@ + encode_field(field@));
    } else {
        push_text(field, out);
    }
}

/// Appends a record as a line.
pub fn push_record(fields: &Vec<Vec<u8>>, out: &mut Vec<u8>)
    ensures
        final(out)@ == old(out)@ + encode_record(texts_view(fields@)),
{
    let ghost all = texts_view(fields@);
    let mut i: usize = 0;
    assert(all.take(0) =~= Seq::<Seq<u8>>::empty());
    assert(out@ =~= old(out)@ + join_fields(all.take(0)));
    while i < fields.len()
        invariant
            i <= fields.len(),
            all == texts_view(fields@),
            out@ == old(out)@ + join_fields(all.take(i as int)),
        decreases fields.len() - i,
    {
        let ghost before = out@;
        if i > 0 {
            out.push(44);
        }
        let ghost middle = out@;
        push_field(&fields[i], out);
        proof {
            let next = all.take(i + 1);
            assert(next.drop_last() =~= all.take(i as int));
            assert(next.last() == fields[i as int]@);
            if i == 0 {
                assert(next[0] == fields[i as int]@);
                assert(join_fields(all.take(0)) =~= Seq::<u8>::empty());
                assert(out@ =~= old(out)@ + join_fields(next));
            } else {
                assert(out@ =~= old(out)@ + join_fields(next));
            }
        }
        i += 1;
    }
    assert(all.take(fields.len() as int) =~= all);
    out.push(10);
    assert(out@ =~= old(out)@ + encode_record(all));
}

/// The scalars of a row as texts.
fn render_fields(row: &Vec<Value>) -> (out: Vec<Vec<u8>>)
    requires
        forall|c: int| 0 <= c < row.len() ==> writable(#[trigger] row[c]@),
    ensures
        texts_view(out@) == render_row(row_view(row@)),
{
    let mut out: Vec<Vec<u8>> = Vec::new();
    let mut c: usize = 0;
    while c < row.len()
        invariant
            c <= row.len(),
            out.len() == c,
            forall|k: int| 0 <= k < row.len() ==> writable(#[trigger] row[k]@),
            forall|k: int| 0 <= k < c ==> out[k]@ == render(row[k]@),
        decreases row.len() - c,
    {
        out.push(render_value(&row[c]));
        c += 1;
    }
    assert(texts_view(out@) =~= render_row(row_view(row@)));
    out
}

/// `String::from_utf8` of std: the text whose UTF-8 encoding the bytes are,
/// and nothing where the bytes are no valid UTF-8.
#[verifier::external_body]
fn text_from_utf8(bytes: Vec<u8>) -> (out: Option<String>)
    ensures
        out is Some <==> valid_utf8(bytes@),
        out matches Some(text) ==> encode_utf8(text@) == bytes@,
{
    String::from_utf8(bytes).ok()
}

impl DataSet {
    /// The table as the bytes of delimited text.
    pub fn to_csv_bytes(&self) -> (out: Vec<u8>)
        requires
            self.wf(),
        ensures
            out@ == encode_table(self@),
    {
        let ghost records = table_records(self@);
        let rows: &Vec<Vec<Value>> = self.rows();
        let mut out: Vec<u8> = Vec::new();
        push_record(self.column_names(), &mut out);
        proof {
            assert(records.take(1) =~= seq![self@.names]);
            assert(records.take(1).drop_last() =~= Seq::<Seq<Seq<u8>>>::empty());
            assert(encode_records(records.take(1).drop_last()) =~= Seq::<u8>::empty());
            assert(out@ =~= encode_records(records.take(1)));
        }
        let mut r: usize = 0;
        while r < rows.len()
            invariant
                r <= rows.len(),
                self.wf(),
                rows_view(rows@) == self@.rows,
                records == table_records(self@),
                out@ == encode_records(records.take(r + 1)),
            decreases rows.len() - r,
        {
            proof {
                assert(self@.rows[r as int] == row_view(rows[r as int]@));
                assert(crate::table::row_fits(self@.rows[r as int], self@.types));
                assert forall|c: int| 0 <= c < rows[r as int].len() implies writable(
                    #[trigger] rows[r as int][c]@,
                ) by {
                    assert(crate::value::conforms(self@.rows[r as int][c], self@.types[c]));
                }
            }
            let fields: Vec<Vec<u8>> = render_fields(&rows[r]);
            push_record(&fields, &mut out);
            proof {
                let next = records.take(r + 2);
                assert(next.drop_last() =~= records.take(r + 1));
                assert(next.last() == render_row(self@.rows[r as int]));
            }
            r += 1;
        }
        assert(records.take(rows.len() + 1) =~= records);
        out
    }

    /// The table as delimited text: a header line with the names of the
    /// columns, then one line per row. Fails where the bytes of the result
    /// are no valid UTF-8, and only there.
    pub fn to_csv(&self) -> (out: Result<String, QueryError>)
        requires
            self.wf(),
        ensures
            match out {
                Ok(text) => valid_utf8(encode_table(self@)) && encode_utf8(text@) == encode_table(
                    self@,
                ),
                Err(e) => !valid_utf8(encode_table(self@)) && e@ == Failure::<Seq<u8>>::Encoding,
            },
    {
        match text_from_utf8(self.to_csv_bytes()) {
            Some(text) => Ok(text),
            None => Err(Failure::Encoding),
        }
    }
}

} // verus!
