//! Ordering puts the rows of a well-formed table in the order of the keys:
//! no row of the result must come before a row that stands in front of it.

use vstd::prelude::*;
use crate::expr::{lemma_position, position};
use crate::laws::{insert_at, lemma_insert_at};
use crate::stages::{key_value, lemma_sort_order_range, row_before, row_before_from, sort_order};
use crate::table::row_fits;
use crate::value::{conforms, datum_before, text_before, Cell, ColumnType, Datum};

verus! {

/// Of two byte strings, at most one comes before the other.
pub proof fn lemma_text_one_way(a: Seq<u8>, b: Seq<u8>)
    ensures
        !(text_before(a, b) && text_before(b, a)),
    decreases a.len(),
{
    if a.len() > 0 && b.len() > 0 && a[0] == b[0] {
        lemma_text_one_way(a.drop_first(), b.drop_first());
    }
}

/// Two byte strings of which neither comes before the other are the same.
pub proof fn lemma_text_total(a: Seq<u8>, b: Seq<u8>)
    requires
        !text_before(a, b),
        !text_before(b, a),
    ensures
        a == b,
    decreases a.len(),
{
    if a.len() > 0 && b.len() > 0 {
        lemma_text_total(a.drop_first(), b.drop_first());
        assert(a =~= seq![a[0]] + a.drop_first());
        assert(b =~= seq![b[0]] + b.drop_first());
    } else {
        assert(a =~= b);
    }
}

/// Dictionary order passes on: before a string that is before a third is
/// before the third.
pub proof fn lemma_text_passes_on(a: Seq<u8>, b: Seq<u8>, c: Seq<u8>)
    requires
        text_before(a, b),
        text_before(b, c),
    ensures
        text_before(a, c),
    decreases a.len(),
{
    if a.len() > 0 && a[0] == b[0] && b[0] == c[0] {
        lemma_text_passes_on(a.drop_first(), b.drop_first(), c.drop_first());
    }
}

/// The scalars of one column are in a line: of two, at most one comes
/// before the other; two of which neither comes before the other are the
/// same; and the order passes on.
pub proof fn lemma_datum_line(a: Datum, b: Datum, c: Datum, t: ColumnType)
    requires
        conforms(a, t),
        conforms(b, t),
        conforms(c, t),
    ensures
        !(datum_before(a, b) && datum_before(b, a)),
        !datum_before(a, b) && !datum_before(b, a) ==> a == b,
        datum_before(a, b) && datum_before(b, c) ==> datum_before(a, c),
{
    match (a, b) {
        (Cell::Text(x), Cell::Text(y)) => {
            lemma_text_one_way(x, y);
            if !text_before(x, y) && !text_before(y, x) {
                lemma_text_total(x, y);
            }
            if let Cell::Text(z) = c {
                if text_before(x, y) && text_before(y, z) {
                    lemma_text_passes_on(x, y, z);
                }
            }
        },
        _ => {},
    }
}

/// The type of the scalars by which rows are ordered under a key.
pub open spec fn key_type(names: Seq<Seq<u8>>, types: Seq<ColumnType>, column: Seq<u8>) -> ColumnType {
    match position(names, column) {
        Some(i) => if i < types.len() {
            types[i]
        } else {
            ColumnType::Text
        },
        None => ColumnType::Text,
    }
}

/// The scalar by which a row that fits the columns is ordered is of the
/// key's type.
pub proof fn lemma_key_conforms(
    row: Seq<Datum>,
    names: Seq<Seq<u8>>,
    types: Seq<ColumnType>,
    column: Seq<u8>,
)
    requires
        row_fits(row, types),
    ensures
        conforms(key_value(row, names, column), key_type(names, types, column)),
{
    lemma_position(names, column);
}

/// Under the keys from `from` on, a row that must come before a third must
/// come before any other row, or that row before the third; and of two rows
/// at most one must come before the other.
pub proof fn lemma_rows_line(
    x: Seq<Datum>,
    y: Seq<Datum>,
    z: Seq<Datum>,
    names: Seq<Seq<u8>>,
    types: Seq<ColumnType>,
    keys: Seq<(Seq<u8>, bool)>,
    from: int,
)
    requires
        row_fits(x, types),
        row_fits(y, types),
        row_fits(z, types),
        0 <= from,
    ensures
        row_before_from(x, z, names, keys, from) ==> row_before_from(x, y, names, keys, from)
            || row_before_from(y, z, names, keys, from),
        !(row_before_from(x, y, names, keys, from) && row_before_from(y, x, names, keys, from)),
    decreases keys.len() - from,
{
    if from < keys.len() {
        let column = keys[from].0;
        let t = key_type(names, types, column);
        let kx = key_value(x, names, column);
        let ky = key_value(y, names, column);
        let kz = key_value(z, names, column);
        lemma_key_conforms(x, names, types, column);
        lemma_key_conforms(y, names, types, column);
        lemma_key_conforms(z, names, types, column);
        lemma_datum_line(kx, ky, kz, t);
        lemma_datum_line(kx, kz, ky, t);
        lemma_datum_line(ky, kx, kz, t);
        lemma_datum_line(ky, kz, kx, t);
        lemma_datum_line(kz, kx, ky, t);
        lemma_datum_line(kz, ky, kx, t);
        lemma_rows_line(x, y, z, names, types, keys, from + 1);
    }
}

/// Ordering sorts: in the order of the rows of a well-formed table, no row
/// must come before a row that stands in front of it.
pub proof fn law_order_sorted(
    rows: Seq<Seq<Datum>>,
    names: Seq<Seq<u8>>,
    types: Seq<ColumnType>,
    keys: Seq<(Seq<u8>, bool)>,
    count: nat,
    a: int,
    b: int,
)
    requires
        forall|r: int| 0 <= r < rows.len() ==> row_fits(#[trigger] rows[r], types),
        count <= rows.len(),
        0 <= a < b < count,
    ensures
        !row_before(
            rows[sort_order(rows, names, keys, count)[b]],
            rows[sort_order(rows, names, keys, count)[a]],
            names,
            keys,
        ),
    decreases count,
{
    let before = sort_order(rows, names, keys, (count - 1) as nat);
    let after = sort_order(rows, names, keys, count);
    let x = count - 1;
    lemma_sort_order_range(rows, names, keys, (count - 1) as nat);
    lemma_insert_at(before, x, rows, names, keys);
    let at = insert_at(before, x, rows, names, keys);
    lemma_insert_at_behind(before, x, rows, names, keys);
    if a == at {
        assert(after[b] == before[b - 1]);
        assert(row_before(rows[x], rows[before[b - 1]], names, keys));
        lemma_rows_line(rows[x], rows[before[b - 1]], rows[x], names, types, keys, 0);
    } else if b == at {
        assert(after[a] == before[a]);
        if a < at - 1 {
            law_order_sorted(rows, names, types, keys, (count - 1) as nat, a, at - 1);
            lemma_rows_line(rows[x], rows[before[at - 1]], rows[before[a]], names, types, keys, 0);
        }
    } else {
        let p = if a < at { a } else { a - 1 };
        let q = if b < at { b } else { b - 1 };
        assert(after[a] == before[p]);
        assert(after[b] == before[q]);
        law_order_sorted(rows, names, types, keys, (count - 1) as nat, p, q);
    }
}

/// An index is put behind an index whose row it need not come before.
proof fn lemma_insert_at_behind(
    sorted: Seq<int>,
    x: int,
    rows: Seq<Seq<Datum>>,
    names: Seq<Seq<u8>>,
    keys: Seq<(Seq<u8>, bool)>,
)
    ensures
        insert_at(sorted, x, rows, names, keys) > 0 ==> !row_before(
            rows[x],
            rows[sorted[insert_at(sorted, x, rows, names, keys) - 1]],
            names,
            keys,
        ),
    decreases sorted.len(),
{
    if sorted.len() > 0 && row_before(rows[x], rows[sorted.last()], names, keys) {
        let front = sorted.drop_last();
        lemma_insert_at_behind(front, x, rows, names, keys);
        let at = insert_at(front, x, rows, names, keys);
        if at > 0 {
            lemma_insert_at(front, x, rows, names, keys);
            assert(front[at - 1] == sorted[at - 1]);
        }
    }
}

} // verus!
