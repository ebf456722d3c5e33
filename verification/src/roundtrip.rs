//! Writing a table as delimited text and loading the text again gives the
//! table back: the same columns, and in every cell a value that is written
//! as the cell's value was.

use vstd::prelude::*;
use crate::csv::{
    encode_field, encode_record, encode_records, encode_table, escape, is_special, join_fields,
    needs_quotes, table_records,
};
use crate::decode::{decode_records, end_field, end_record, scan, scan_start, step, Mode, Scan};
use crate::load::{
    cell_of, column_reads_as, delimited_table, first_uneven_from, infer_type, reads_as,
    record_row, records_table, records_types, shape_fault,
};
use crate::error::Refusal;
use crate::load::{load_allows, sniff, ContentKind};
use crate::table::Relation;
use crate::text::{lemma_render_parsed, render};
use crate::value::ColumnType;

verus! {

/// Reading one text after another is reading the second from where the
/// first has led.
pub proof fn lemma_scan_concat(a: Seq<u8>, b: Seq<u8>, from: Scan)
    ensures
        scan(a + b, from) == scan(b, scan(a, from)),
    decreases b.len(),
{
    if b.len() == 0 {
        assert(a + b =~= a);
    } else {
        assert((a + b).drop_last() =~= a + b.drop_last());
        assert((a + b).last() == b.last());
        lemma_scan_concat(a, b.drop_last(), from);
    }
}

/// Reading one more byte is a step.
pub proof fn lemma_scan_push(a: Seq<u8>, b: u8, from: Scan)
    ensures
        scan(a.push(b), from) == step(scan(a, from), b),
{
    assert(a.push(b).drop_last() =~= a);
}

/// The reader in a field that has been read whole: the next comma or line
/// feed ends the field `field`.
pub open spec fn pending(s: Scan, field: Seq<u8>) -> bool {
    &&& s.field == field
    &&& (s.mode == Mode::Unquoted || s.mode == Mode::Closed || (s.mode == Mode::Start
        && field.len() == 0))
}

/// A field that needs no quotes is read as it stands.
proof fn lemma_scan_plain(field: Seq<u8>, from: Scan)
    requires
        !needs_quotes(field),
        from.mode == Mode::Start,
        from.field.len() == 0,
    ensures
        pending(scan(field, from), field),
        scan(field, from).record == from.record,
        scan(field, from).records == from.records,
    decreases field.len(),
{
    if field.len() == 0 {
        assert(from.field =~= field);
    } else {
        let front = field.drop_last();
        assert forall|i: int| 0 <= i < front.len() implies !is_special(#[trigger] front[i]) by {
            assert(front[i] == field[i]);
            assert(!needs_quotes(field));
        }
        assert(!needs_quotes(front));
        lemma_scan_plain(front, from);
        assert(!is_special(field[field.len() - 1]));
        assert(front.push(field.last()) =~= field);
    }
}

/// An escaped field inside quotes is read as the field.
proof fn lemma_scan_escaped(field: Seq<u8>, from: Scan)
    requires
        from.mode == Mode::Quoted,
    ensures
        scan(escape(field), from) == (Scan {
            mode: Mode::Quoted,
            field: from.field + field,
            record: from.record,
            records: from.records,
        }),
    decreases field.len(),
{
    if field.len() == 0 {
        assert(from.field + field =~= from.field);
    } else {
        let front = field.drop_last();
        lemma_scan_escaped(front, from);
        assert((from.field + front).push(field.last()) =~= from.field + field);
        if field.last() == 34 {
            lemma_scan_push(escape(front), 34u8, from);
            lemma_scan_push(escape(front).push(34u8), 34u8, from);
        } else {
            lemma_scan_push(escape(front), field.last(), from);
        }
    }
}

/// A field as it is written is read as the field.
proof fn lemma_scan_field(field: Seq<u8>, from: Scan)
    requires
        from.mode == Mode::Start,
        from.field.len() == 0,
    ensures
        pending(scan(encode_field(field), from), field),
        scan(encode_field(field), from).record == from.record,
        scan(encode_field(field), from).records == from.records,
{
    if needs_quotes(field) {
        let open = seq![34u8];
        let opened = Scan {
            mode: Mode::Quoted,
            field: from.field,
            record: from.record,
            records: from.records,
        };
        assert(open =~= Seq::<u8>::empty().push(34u8));
        lemma_scan_push(Seq::<u8>::empty(), 34u8, from);
        assert(scan(open, from) == opened);
        lemma_scan_concat(open, escape(field), from);
        lemma_scan_escaped(field, opened);
        assert(from.field + field =~= field);
        assert(open + escape(field) + seq![34u8] =~= (open + escape(field)).push(34u8));
        lemma_scan_push(open + escape(field), 34u8, from);
    } else {
        lemma_scan_plain(field, from);
    }
}

/// Fields as they are written with commas between them are read as the
/// fields: all but the last into the record, the last pending.
proof fn lemma_scan_join(fields: Seq<Seq<u8>>, from: Scan)
    requires
        fields.len() >= 1,
        from.mode == Mode::Start,
        from.field.len() == 0,
    ensures
        pending(scan(join_fields(fields), from), fields.last()),
        scan(join_fields(fields), from).record == from.record + fields.drop_last(),
        scan(join_fields(fields), from).records == from.records,
    decreases fields.len(),
{
    if fields.len() == 1 {
        lemma_scan_field(fields[0], from);
        assert(from.record + fields.drop_last() =~= from.record);
    } else {
        let front = fields.drop_last();
        lemma_scan_join(front, from);
        let read = scan(join_fields(front), from);
        let comma = join_fields(front).push(44u8);
        assert(join_fields(front) + seq![44u8] =~= comma);
        lemma_scan_push(join_fields(front), 44u8, from);
        let next = scan(comma, from);
        assert(next == end_field(read));
        assert(next.record =~= from.record + front);
        lemma_scan_concat(comma, encode_field(fields.last()), from);
        lemma_scan_field(fields.last(), next);
    }
}

/// A record as a line is read as the record.
proof fn lemma_scan_record(fields: Seq<Seq<u8>>, from: Scan)
    requires
        fields.len() >= 1,
        from.mode == Mode::Start,
        from.field.len() == 0,
        from.record.len() == 0,
    ensures
        scan(encode_record(fields), from) == (Scan {
            mode: Mode::Start,
            field: Seq::empty(),
            record: Seq::empty(),
            records: from.records.push(fields),
        }),
{
    lemma_scan_join(fields, from);
    let read = scan(join_fields(fields), from);
    assert(join_fields(fields) + seq![10u8] =~= join_fields(fields).push(10u8));
    lemma_scan_push(join_fields(fields), 10u8, from);
    assert(scan(encode_record(fields), from) == end_record(read));
    assert((from.record + fields.drop_last()).push(fields.last()) =~= fields);
}

/// Records as lines are read as the records.
proof fn lemma_scan_records(records: Seq<Seq<Seq<u8>>>, from: Scan)
    requires
        forall|r: int| 0 <= r < records.len() ==> (#[trigger] records[r]).len() >= 1,
        from.mode == Mode::Start,
        from.field.len() == 0,
        from.record.len() == 0,
    ensures
        scan(encode_records(records), from) == (Scan {
            mode: Mode::Start,
            field: Seq::empty(),
            record: Seq::empty(),
            records: from.records + records,
        }),
    decreases records.len(),
{
    if records.len() == 0 {
        assert(from.records + records =~= from.records);
        assert(from.field =~= Seq::<u8>::empty());
        assert(from.record =~= Seq::<Seq<u8>>::empty());
    } else {
        let front = records.drop_last();
        assert forall|r: int| 0 <= r < front.len() implies (#[trigger] front[r]).len() >= 1 by {
            assert(front[r] == records[r]);
        }
        lemma_scan_records(front, from);
        lemma_scan_concat(encode_records(front), encode_record(records.last()), from);
        lemma_scan_record(records.last(), scan(encode_records(front), from));
        assert((from.records + front).push(records.last()) =~= from.records + records);
    }
}

/// Records that are written and read again are the records, where each has
/// at least one field.
pub proof fn law_records_round_trip(records: Seq<Seq<Seq<u8>>>)
    requires
        forall|r: int| 0 <= r < records.len() ==> (#[trigger] records[r]).len() >= 1,
    ensures
        decode_records(encode_records(records)) == Ok::<Seq<Seq<Seq<u8>>>, nat>(records),
{
    lemma_scan_records(records, scan_start());
    assert(scan_start().records + records =~= records);
}

/// Records of one width have no uneven record.
proof fn lemma_no_uneven(records: Seq<Seq<Seq<u8>>>, from: int)
    requires
        1 <= from,
        forall|r: int| 0 <= r < records.len() ==> (#[trigger] records[r]).len() == records[0].len(),
    ensures
        first_uneven_from(records, from) is None,
    decreases records.len() - from,
{
    if from < records.len() {
        lemma_no_uneven(records, from + 1);
    }
}

/// A table that is written as delimited text and loaded from the text by
/// the reader of delimited text is the same table again: the same names of
/// columns, as many rows, and in every cell a value that is written as the
/// cell's value was. The types of the columns are inferred anew, so a text
/// that reads as a number comes back as a number, and an empty text as
/// absent. This holds of every well-formed table with at least one column.
pub proof fn law_export_reload(t: Relation)
    requires
        t.well_formed(),
        t.names.len() >= 1,
    ensures
        delimited_table(encode_table(t)) is Ok,
        delimited_table(encode_table(t))->Ok_0.names == t.names,
        delimited_table(encode_table(t))->Ok_0.rows.len() == t.rows.len(),
        forall|r: int, c: int|
            0 <= r < t.rows.len() && 0 <= c < t.names.len() ==> render(
                #[trigger] delimited_table(encode_table(t))->Ok_0.rows[r][c],
            ) == render(t.rows[r][c]),
{
    let records = table_records(t);
    assert forall|r: int| 0 <= r < records.len() implies (#[trigger] records[r]).len()
        == t.names.len() by {
        if r > 0 {
            assert(crate::table::row_fits(t.rows[r - 1], t.types));
        }
    }
    law_records_round_trip(records);
    lemma_no_uneven(records, 1);
    assert(shape_fault(records) is None);
    let back = records_table(records);
    assert(delimited_table(encode_table(t)) == Ok::<Relation, Option<usize>>(back));
    let types = records_types(records);
    assert forall|r: int, c: int| 0 <= r < t.rows.len() && 0 <= c < t.names.len() implies render(
        #[trigger] back.rows[r][c],
    ) == render(t.rows[r][c]) by {
        let written = records[r + 1][c];
        assert(crate::table::row_fits(t.rows[r], t.types));
        assert(written == render(t.rows[r][c]));
        assert(back.rows[r] == record_row(records[r + 1], types));
        assert(back.rows[r][c] == cell_of(written, types[c]));
        assert(types[c] == infer_type(records, c));
        if written.len() > 0 {
            let kind = types[c];
            if kind != ColumnType::Text {
                assert(column_reads_as(records, c, kind, records.len() as int));
                assert(reads_as(records[r + 1][c], kind));
            }
            lemma_render_parsed(written, kind);
        }
    }
}

/// The same holds where the text is loaded as the content of a source,
/// whose kind is found first, if the text is found to be delimited text. It
/// is not where the name of the first column opens with a brace or a
/// bracket, or with a control byte.
pub proof fn law_export_load(t: Relation, source: Seq<u8>, out: Result<Relation, Refusal>)
    requires
        t.well_formed(),
        t.names.len() >= 1,
        sniff(encode_table(t)) == Some(ContentKind::DelimitedText),
        load_allows(source, encode_table(t), out),
    ensures
        out is Ok,
        out->Ok_0.names == t.names,
        out->Ok_0.rows.len() == t.rows.len(),
        forall|r: int, c: int|
            0 <= r < t.rows.len() && 0 <= c < t.names.len() ==> render(
                #[trigger] out->Ok_0.rows[r][c],
            ) == render(t.rows[r][c]),
{
    law_export_reload(t);
}

} // verus!
