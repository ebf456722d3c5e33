//! The four stages of a query, as functions on the rows of a table: filter,
//! order, slice and project, in that order.
//!
//! An expression is typed against the table's columns before any row is
//! read, so a query either fails whatever the rows are, or gives a table.
//! The executable stages are in `engine`, each proved equal to its
//! statement here.

use vstd::prelude::*;
use crate::error::{Failure, Refusal, Stage};
use crate::expr::{eval, position, truth_type, type_of, Expr, Fault, Term};
use crate::intent::Plan;
use crate::table::Relation;
use crate::value::{datum_before, ColumnType, Datum};

verus! {

// ---------------------------------------------------------------- filter

/// Whether a row is kept: the predicate is true on it. A predicate that is
/// absent on the row, or gives anything but a truth value, does not keep it.
pub open spec fn holds(predicate: Option<Term>, names: Seq<Seq<u8>>, row: Seq<Datum>) -> bool {
    match predicate {
        None => true,
        Some(p) => eval(p, names, row) == Datum::Boolean(true),
    }
}

/// The rows on which the predicate holds, in their order.
pub open spec fn filter_rows(
    rows: Seq<Seq<Datum>>,
    names: Seq<Seq<u8>>,
    predicate: Option<Term>,
) -> Seq<Seq<Datum>>
    decreases rows.len(),
{
    if rows.len() == 0 {
        Seq::empty()
    } else {
        let kept = filter_rows(rows.drop_last(), names, predicate);
        if holds(predicate, names, rows.last()) {
            kept.push(rows.last())
        } else {
            kept
        }
    }
}

// ----------------------------------------------------------------- order

/// The scalar by which a row is ordered under a key: the row's value in the
/// key's column.
pub open spec fn key_value(row: Seq<Datum>, names: Seq<Seq<u8>>, column: Seq<u8>) -> Datum {
    eval(Expr::Column(column), names, row)
}

/// Whether row `a` must come before row `b` under the keys from `from` on:
/// at the first key on which they differ, `a` has the smaller value, or the
/// larger one where the key is descending.
pub open spec fn row_before_from(
    a: Seq<Datum>,
    b: Seq<Datum>,
    names: Seq<Seq<u8>>,
    keys: Seq<(Seq<u8>, bool)>,
    from: int,
) -> bool
    decreases keys.len() - from,
{
    if from < 0 || from >= keys.len() {
        false
    } else {
        let x = key_value(a, names, keys[from].0);
        let y = key_value(b, names, keys[from].0);
        let (lo, hi) = if keys[from].1 {
            (y, x)
        } else {
            (x, y)
        };
        if datum_before(lo, hi) {
            true
        } else if datum_before(hi, lo) {
            false
        } else {
            row_before_from(a, b, names, keys, from + 1)
        }
    }
}

/// Whether row `a` must come before row `b` under the keys, the first key
/// deciding first.
pub open spec fn row_before(
    a: Seq<Datum>,
    b: Seq<Datum>,
    names: Seq<Seq<u8>>,
    keys: Seq<(Seq<u8>, bool)>,
) -> bool {
    row_before_from(a, b, names, keys, 0)
}

/// The ordered list of row indices `sorted` with the index `x` put in: after
/// every index whose row need not come after row `x`.
pub open spec fn insert_index(
    sorted: Seq<int>,
    x: int,
    rows: Seq<Seq<Datum>>,
    names: Seq<Seq<u8>>,
    keys: Seq<(Seq<u8>, bool)>,
) -> Seq<int>
    decreases sorted.len(),
{
    if sorted.len() == 0 {
        seq![x]
    } else if row_before(rows[x], rows[sorted.last()], names, keys) {
        insert_index(sorted.drop_last(), x, rows, names, keys).push(sorted.last())
    } else {
        sorted.push(x)
    }
}

/// The indices of the first `count` rows in the order of the keys; rows that
/// the keys do not tell apart keep the order they came in.
pub open spec fn sort_order(
    rows: Seq<Seq<Datum>>,
    names: Seq<Seq<u8>>,
    keys: Seq<(Seq<u8>, bool)>,
    count: nat,
) -> Seq<int>
    decreases count,
{
    if count == 0 {
        Seq::empty()
    } else {
        insert_index(
            sort_order(rows, names, keys, (count - 1) as nat),
            count - 1,
            rows,
            names,
            keys,
        )
    }
}

/// The rows in the order of the keys.
pub open spec fn order_rows(
    rows: Seq<Seq<Datum>>,
    names: Seq<Seq<u8>>,
    keys: Seq<(Seq<u8>, bool)>,
) -> Seq<Seq<Datum>> {
    let order = sort_order(rows, names, keys, rows.len());
    Seq::new(order.len(), |i: int| rows[order[i]])
}

// ----------------------------------------------------------------- slice

/// The index of the first row that a slice keeps.
pub open spec fn slice_start(count: nat, offset: Option<usize>) -> int {
    match offset {
        Some(o) => if o <= count {
            o as int
        } else {
            count as int
        },
        None => 0,
    }
}

/// The index after the last row that a slice keeps.
pub open spec fn slice_end(count: nat, offset: Option<usize>, limit: Option<usize>) -> int {
    let start = slice_start(count, offset);
    match limit {
        Some(l) => if start + l <= count {
            start + l
        } else {
            count as int
        },
        None => count as int,
    }
}

/// The rows without the first `offset` of them, and of those at most `limit`.
pub open spec fn slice_rows(
    rows: Seq<Seq<Datum>>,
    offset: Option<usize>,
    limit: Option<usize>,
) -> Seq<Seq<Datum>> {
    rows.subrange(slice_start(rows.len(), offset), slice_end(rows.len(), offset, limit))
}

// --------------------------------------------------------------- project

/// The row of the result for a row of the input: one value per listed
/// column.
pub open spec fn project_row(
    row: Seq<Datum>,
    names: Seq<Seq<u8>>,
    outputs: Seq<(Seq<u8>, Term)>,
) -> Seq<Datum> {
    Seq::new(outputs.len(), |j: int| eval(outputs[j].1, names, row))
}

/// The rows of the result.
pub open spec fn project_rows(
    rows: Seq<Seq<Datum>>,
    names: Seq<Seq<u8>>,
    outputs: Option<Seq<(Seq<u8>, Term)>>,
) -> Seq<Seq<Datum>> {
    match outputs {
        None => rows,
        Some(columns) => Seq::new(rows.len(), |r: int| project_row(rows[r], names, columns)),
    }
}

/// The type of a column of the result: the static type of its expression,
/// and text for an expression that is absent on every row.
pub open spec fn output_type(e: Term, names: Seq<Seq<u8>>, types: Seq<ColumnType>) -> ColumnType {
    match type_of(e, names, types) {
        Ok(Some(t)) => t,
        _ => ColumnType::Text,
    }
}

/// The names of the columns of the result.
pub open spec fn output_names(names: Seq<Seq<u8>>, outputs: Option<Seq<(Seq<u8>, Term)>>) -> Seq<
    Seq<u8>,
> {
    match outputs {
        None => names,
        Some(columns) => Seq::new(columns.len(), |j: int| columns[j].0),
    }
}

/// The types of the columns of the result.
pub open spec fn output_types(
    names: Seq<Seq<u8>>,
    types: Seq<ColumnType>,
    outputs: Option<Seq<(Seq<u8>, Term)>>,
) -> Seq<ColumnType> {
    match outputs {
        None => types,
        Some(columns) => Seq::new(columns.len(), |j: int| output_type(columns[j].1, names, types)),
    }
}

// ---------------------------------------------------------------- faults

/// The error of a fault in an expression of the given stage.
pub open spec fn fault_at(f: Fault<Seq<u8>>, stage: Stage) -> Refusal {
    match f {
        Fault::UnknownColumn(column) => Failure::UnknownColumn { column, stage },
        Fault::Mismatch => Failure::TypeMismatch { stage },
    }
}

/// Why the filter cannot run: the predicate names an unknown column, joins
/// operands that do not meet, or is no truth value.
pub open spec fn filter_fault(
    predicate: Option<Term>,
    names: Seq<Seq<u8>>,
    types: Seq<ColumnType>,
) -> Option<Refusal> {
    match predicate {
        None => None,
        Some(p) => match type_of(p, names, types) {
            Err(f) => Some(fault_at(f, Stage::Filter)),
            Ok(t) => if truth_type(t) {
                None
            } else {
                Some(Failure::TypeMismatch { stage: Stage::Filter })
            },
        },
    }
}

/// Why the ordering cannot run: the first key, from `from` on, whose column
/// the table does not have.
pub open spec fn order_fault_from(keys: Seq<(Seq<u8>, bool)>, names: Seq<Seq<u8>>, from: int) -> Option<
    Refusal,
>
    decreases keys.len() - from,
{
    if from < 0 || from >= keys.len() {
        None
    } else if position(names, keys[from].0) is None {
        Some(Failure::UnknownColumn { column: keys[from].0, stage: Stage::Order })
    } else {
        order_fault_from(keys, names, from + 1)
    }
}

/// Whether the name of the listed column `j` is that of an earlier one.
pub open spec fn repeats(outputs: Seq<(Seq<u8>, Term)>, j: int) -> bool {
    exists|k: int| 0 <= k < j && outputs[k].0 == outputs[j].0
}

/// Why the projection cannot run: the first listed column, from `from` on,
/// whose expression has a fault, or whose name an earlier column has.
pub open spec fn project_fault_from(
    outputs: Seq<(Seq<u8>, Term)>,
    names: Seq<Seq<u8>>,
    types: Seq<ColumnType>,
    from: int,
) -> Option<Refusal>
    decreases outputs.len() - from,
{
    if from < 0 || from >= outputs.len() {
        None
    } else {
        match type_of(outputs[from].1, names, types) {
            Err(f) => Some(fault_at(f, Stage::Project)),
            Ok(_) => if repeats(outputs, from) {
                Some(Failure::UnsupportedQuery(outputs[from].0))
            } else {
                project_fault_from(outputs, names, types, from + 1)
            },
        }
    }
}

/// Why the projection cannot run; never for every column of the input.
pub open spec fn project_fault(
    outputs: Option<Seq<(Seq<u8>, Term)>>,
    names: Seq<Seq<u8>>,
    types: Seq<ColumnType>,
) -> Option<Refusal> {
    match outputs {
        None => None,
        Some(columns) => project_fault_from(columns, names, types, 0),
    }
}

/// The first error of a query on a table, the stages taken in their order.
pub open spec fn first_fault(t: Relation, plan: Plan) -> Option<Refusal> {
    if filter_fault(plan.predicate, t.names, t.types) is Some {
        filter_fault(plan.predicate, t.names, t.types)
    } else if order_fault_from(plan.ordering, t.names, 0) is Some {
        order_fault_from(plan.ordering, t.names, 0)
    } else {
        project_fault(plan.outputs, t.names, t.types)
    }
}

/// The rows of the result: the input's rows filtered, then ordered, then
/// sliced, then projected.
pub open spec fn result_rows(t: Relation, plan: Plan) -> Seq<Seq<Datum>> {
    let filtered = filter_rows(t.rows, t.names, plan.predicate);
    let ordered = order_rows(filtered, t.names, plan.ordering);
    let sliced = slice_rows(ordered, plan.offset, plan.limit);
    project_rows(sliced, t.names, plan.outputs)
}

/// The result of a query on a table.
pub open spec fn run(t: Relation, plan: Plan) -> Result<Relation, Refusal> {
    match first_fault(t, plan) {
        Some(e) => Err(e),
        None => Ok(
            Relation {
                names: output_names(t.names, plan.outputs),
                types: output_types(t.names, t.types, plan.outputs),
                rows: result_rows(t, plan),
            },
        ),
    }
}


// ---------------------------------------------------------------- proofs

/// Whether a value may be the value of an expression of static type `t`:
/// absent for the type of the absent literal, else of type `t` or absent.
pub open spec fn fits(v: Datum, t: Option<ColumnType>) -> bool {
    match t {
        None => v is Absent,
        Some(kind) => crate::value::conforms(v, kind),
    }
}

/// An expression that has a static type over a table's columns evaluates,
/// on every row that fits the columns, to a value of that type or to absent.
pub proof fn lemma_eval_fits(
    e: Term,
    names: Seq<Seq<u8>>,
    types: Seq<ColumnType>,
    row: Seq<Datum>,
)
    requires
        crate::table::row_fits(row, types),
        type_of(e, names, types) is Ok,
    ensures
        fits(eval(e, names, row), type_of(e, names, types)->Ok_0),
    decreases e,
{
    match e {
        Expr::Literal(v) => {},
        Expr::Column(name) => {
            crate::expr::lemma_position(names, name);
        },
        Expr::Unary(op, operand) => {
            lemma_eval_fits(*operand, names, types, row);
        },
        Expr::Binary(op, left, right) => {
            lemma_eval_fits(*left, names, types, row);
            lemma_eval_fits(*right, names, types, row);
        },
    }
}

/// Filtering keeps only rows of the input.
pub proof fn lemma_filter_rows_fit(
    rows: Seq<Seq<Datum>>,
    names: Seq<Seq<u8>>,
    predicate: Option<Term>,
    types: Seq<ColumnType>,
)
    requires
        forall|r: int| 0 <= r < rows.len() ==> crate::table::row_fits(#[trigger] rows[r], types),
    ensures
        filter_rows(rows, names, predicate).len() <= rows.len(),
        forall|r: int|
            0 <= r < filter_rows(rows, names, predicate).len() ==> crate::table::row_fits(
                #[trigger] filter_rows(rows, names, predicate)[r],
                types,
            ),
    decreases rows.len(),
{
    if rows.len() > 0 {
        let front = rows.drop_last();
        assert forall|r: int| 0 <= r < front.len() implies crate::table::row_fits(
            #[trigger] front[r],
            types,
        ) by {
            assert(front[r] == rows[r]);
        }
        lemma_filter_rows_fit(front, names, predicate, types);
    }
}

/// Putting an index into an ordered list adds that index and keeps the
/// others.
pub proof fn lemma_insert_index_range(
    sorted: Seq<int>,
    x: int,
    rows: Seq<Seq<Datum>>,
    names: Seq<Seq<u8>>,
    keys: Seq<(Seq<u8>, bool)>,
    bound: int,
)
    requires
        0 <= x < bound,
        forall|i: int| 0 <= i < sorted.len() ==> 0 <= #[trigger] sorted[i] < bound,
    ensures
        insert_index(sorted, x, rows, names, keys).len() == sorted.len() + 1,
        forall|i: int|
            0 <= i < sorted.len() + 1 ==> 0 <= #[trigger] insert_index(
                sorted,
                x,
                rows,
                names,
                keys,
            )[i] < bound,
    decreases sorted.len(),
{
    if sorted.len() > 0 && row_before(rows[x], rows[sorted.last()], names, keys) {
        lemma_insert_index_range(sorted.drop_last(), x, rows, names, keys, bound);
    }
}

/// The order of the first `count` rows has `count` indices, each below
/// `count`.
pub proof fn lemma_sort_order_range(
    rows: Seq<Seq<Datum>>,
    names: Seq<Seq<u8>>,
    keys: Seq<(Seq<u8>, bool)>,
    count: nat,
)
    ensures
        sort_order(rows, names, keys, count).len() == count,
        forall|i: int| 0 <= i < count ==> 0 <= #[trigger] sort_order(rows, names, keys, count)[i] < count,
    decreases count,
{
    if count > 0 {
        lemma_sort_order_range(rows, names, keys, (count - 1) as nat);
        lemma_insert_index_range(
            sort_order(rows, names, keys, (count - 1) as nat),
            count - 1,
            rows,
            names,
            keys,
            count as int,
        );
    }
}

/// Where the projection has no fault from `from` on, every listed column
/// from there on has a typed expression and a name that no earlier column
/// has.
pub proof fn lemma_project_fault_none(
    outputs: Seq<(Seq<u8>, Term)>,
    names: Seq<Seq<u8>>,
    types: Seq<ColumnType>,
    from: int,
)
    requires
        0 <= from,
        project_fault_from(outputs, names, types, from) is None,
    ensures
        forall|j: int|
            from <= j < outputs.len() ==> (#[trigger] type_of(outputs[j].1, names, types)) is Ok
                && !repeats(outputs, j),
    decreases outputs.len() - from,
{
    if from < outputs.len() {
        lemma_project_fault_none(outputs, names, types, from + 1);
    }
}

/// The result of a query on a well-formed table is a well-formed table.
pub proof fn lemma_run_well_formed(t: Relation, plan: Plan)
    requires
        t.well_formed(),
        run(t, plan) is Ok,
    ensures
        run(t, plan)->Ok_0.well_formed(),
{
    let out = run(t, plan)->Ok_0;
    let filtered = filter_rows(t.rows, t.names, plan.predicate);
    let ordered = order_rows(filtered, t.names, plan.ordering);
    let sliced = slice_rows(ordered, plan.offset, plan.limit);
    lemma_filter_rows_fit(t.rows, t.names, plan.predicate, t.types);
    lemma_sort_order_range(filtered, t.names, plan.ordering, filtered.len());
    assert forall|r: int| 0 <= r < sliced.len() implies crate::table::row_fits(
        #[trigger] sliced[r],
        t.types,
    ) by {
        let at = r + slice_start(ordered.len(), plan.offset);
        assert(sliced[r] == ordered[at]);
        let order = sort_order(filtered, t.names, plan.ordering, filtered.len());
        assert(ordered[at] == filtered[order[at]]);
    }
    match plan.outputs {
        None => {},
        Some(columns) => {
            lemma_project_fault_none(columns, t.names, t.types, 0);
            assert forall|i: int, j: int| 0 <= i < j < out.names.len() implies out.names[i]
                != out.names[j] by {
                if out.names[i] == out.names[j] {
                    assert(type_of(columns[j].1, t.names, t.types) is Ok);
                    assert(repeats(columns, j));
                }
            }
            assert forall|r: int| 0 <= r < out.rows.len() implies crate::table::row_fits(
                #[trigger] out.rows[r],
                out.types,
            ) by {
                assert(out.rows[r] == project_row(sliced[r], t.names, columns));
                assert forall|c: int| 0 <= c < out.rows[r].len() implies crate::value::conforms(
                    #[trigger] out.rows[r][c],
                    out.types[c],
                ) by {
                    assert(type_of(columns[c].1, t.names, t.types) is Ok);
                    lemma_eval_fits(columns[c].1, t.names, t.types, sliced[r]);
                }
            }
        },
    }
}

} // verus!
