//! The executable stages of a query, each proved equal to its statement.

use vstd::prelude::*;
use crate::error::{Failure, QueryError, Refusal, Stage};
use crate::stages::{
    fault_at, filter_fault, filter_rows, holds, insert_index, lemma_run_well_formed,
    order_fault_from, order_rows, output_names, output_type, output_types, project_fault,
    project_fault_from, project_row, project_rows, repeats, row_before, row_before_from, run,
    slice_rows, sort_order,
};
use crate::expr::{check, evaluate, find_column, Expression, Fault};
use crate::intent::{keys_view, outputs_view, predicate_view, OutputColumn, Projection, QueryIntent, SortKey};
use crate::table::{DataSet, Relation};
use crate::value::{
    copy_row, copy_text, row_view, rows_view, same_text, texts_view, value_comes_before, Cell,
    ColumnType, Datum, Value,
};

verus! {

/// The rows of a list with one more row are those of the list, and the row.
proof fn lemma_rows_view_push(rows: Seq<Vec<Value>>, row: Vec<Value>)
    ensures
        rows_view(rows.push(row)) == rows_view(rows).push(row_view(row@)),
{
    assert(rows_view(rows.push(row)) =~= rows_view(rows).push(row_view(row@)));
}

/// The error of a fault in an expression of the given stage.
fn fault_error(f: Fault<Vec<u8>>, stage: Stage) -> (e: QueryError)
    ensures
        e@ == fault_at(f@, stage),
{
    match f {
        Fault::UnknownColumn(column) => Failure::UnknownColumn { column, stage },
        Fault::Mismatch => Failure::TypeMismatch { stage },
    }
}

/// The error that keeps the filter from running, if there is one.
pub fn check_filter(
    predicate: &Option<Expression>,
    names: &Vec<Vec<u8>>,
    types: &Vec<ColumnType>,
) -> (out: Option<QueryError>)
    ensures
        match out {
            Some(e) => filter_fault(predicate_view(*predicate), texts_view(names@), types@)
                == Some(e@),
            None => filter_fault(predicate_view(*predicate), texts_view(names@), types@) is None,
        },
{
    match predicate {
        None => None,
        Some(p) => match check(p, names, types) {
            Err(f) => Some(fault_error(f, Stage::Filter)),
            Ok(t) => match t {
                None => None,
                Some(ColumnType::Boolean) => None,
                Some(_) => Some(Failure::TypeMismatch { stage: Stage::Filter }),
            },
        },
    }
}

/// The error that keeps the ordering from running, if there is one.
pub fn check_order(keys: &Vec<SortKey>, names: &Vec<Vec<u8>>) -> (out: Option<QueryError>)
    ensures
        match out {
            Some(e) => order_fault_from(keys_view(keys@), texts_view(names@), 0) == Some(e@),
            None => order_fault_from(keys_view(keys@), texts_view(names@), 0) is None,
        },
{
    let mut i: usize = 0;
    while i < keys.len()
        invariant
            i <= keys.len(),
            order_fault_from(keys_view(keys@), texts_view(names@), 0) == order_fault_from(
                keys_view(keys@),
                texts_view(names@),
                i as int,
            ),
        decreases keys.len() - i,
    {
        assert(keys_view(keys@)[i as int].0 == keys[i as int].column@);
        if find_column(names, &keys[i].column).is_none() {
            return Some(
                Failure::UnknownColumn { column: copy_text(&keys[i].column), stage: Stage::Order },
            );
        }
        i += 1;
    }
    None
}

/// Whether the name of the listed column `j` is that of an earlier one.
fn name_repeats(columns: &Vec<OutputColumn>, j: usize) -> (yes: bool)
    requires
        j < columns.len(),
    ensures
        yes == repeats(outputs_view(columns@), j as int),
{
    let mut k: usize = 0;
    while k < j
        invariant
            k <= j < columns.len(),
            forall|i: int| 0 <= i < k ==> outputs_view(columns@)[i].0 != outputs_view(columns@)[j as int].0,
        decreases j - k,
    {
        if same_text(&columns[k].name, &columns[j].name) {
            assert(outputs_view(columns@)[k as int].0 == outputs_view(columns@)[j as int].0);
            return true;
        }
        k += 1;
    }
    false
}

/// The names and types of the columns of the result, or the error that
/// keeps the projection from running.
pub fn check_project(projection: &Projection, names: &Vec<Vec<u8>>, types: &Vec<ColumnType>) -> (out:
    Result<(Vec<Vec<u8>>, Vec<ColumnType>), QueryError>)
    ensures
        match out {
            Ok(columns) => {
                &&& project_fault(projection@, texts_view(names@), types@) is None
                &&& texts_view(columns.0@) == output_names(texts_view(names@), projection@)
                &&& columns.1@ == output_types(texts_view(names@), types@, projection@)
            },
            Err(e) => project_fault(projection@, texts_view(names@), types@) == Some(e@),
        },
{
    let mut out_names: Vec<Vec<u8>> = Vec::new();
    let mut out_types: Vec<ColumnType> = Vec::new();
    match projection {
        Projection::All => {
            let mut i: usize = 0;
            while i < names.len()
                invariant
                    i <= names.len(),
                    out_names.len() == i,
                    forall|k: int| 0 <= k < i ==> out_names[k]@ == names[k]@,
                decreases names.len() - i,
            {
                out_names.push(copy_text(&names[i]));
                i += 1;
            }
            let mut j: usize = 0;
            while j < types.len()
                invariant
                    j <= types.len(),
                    out_types@ == types@.take(j as int),
                decreases types.len() - j,
            {
                out_types.push(types[j]);
                j += 1;
                assert(out_types@ == types@.take(j as int));
            }
            assert(types@.take(types.len() as int) == types@);
            assert(texts_view(out_names@) =~= texts_view(names@));
            Ok((out_names, out_types))
        },
        Projection::Columns(columns) => {
            let ghost outputs = outputs_view(columns@);
            let ghost nv = texts_view(names@);
            let mut j: usize = 0;
            while j < columns.len()
                invariant
                    j <= columns.len(),
                    outputs == outputs_view(columns@),
                    projection@ == Some(outputs),
                    nv == texts_view(names@),
                    project_fault_from(outputs, nv, types@, 0) == project_fault_from(
                        outputs,
                        nv,
                        types@,
                        j as int,
                    ),
                    out_names.len() == j,
                    out_types.len() == j,
                    forall|k: int| 0 <= k < j ==> out_names[k]@ == outputs[k].0,
                    forall|k: int| 0 <= k < j ==> out_types[k] == output_type(outputs[k].1, nv, types@),
                decreases columns.len() - j,
            {
                assert(outputs[j as int] == (columns[j as int].name@, columns[j as int].expr@));
                let kind: ColumnType = match check(&columns[j].expr, names, types) {
                    Err(f) => {
                        return Err(fault_error(f, Stage::Project));
                    },
                    Ok(Some(t)) => t,
                    Ok(None) => ColumnType::Text,
                };
                if name_repeats(columns, j) {
                    return Err(Failure::UnsupportedQuery(copy_text(&columns[j].name)));
                }
                out_names.push(copy_text(&columns[j].name));
                out_types.push(kind);
                j += 1;
            }
            assert(texts_view(out_names@) =~= output_names(nv, Some(outputs)));
            assert(out_types@ =~= output_types(nv, types@, Some(outputs)));
            Ok((out_names, out_types))
        },
    }
}

/// Whether the predicate holds on a row.
pub fn row_passes(predicate: &Option<Expression>, names: &Vec<Vec<u8>>, row: &Vec<Value>) -> (yes:
    bool)
    ensures
        yes == holds(predicate_view(*predicate), texts_view(names@), row_view(row@)),
{
    match predicate {
        None => true,
        Some(p) => match evaluate(p, names, row) {
            Cell::Boolean(b) => b,
            _ => false,
        },
    }
}

/// The rows on which the predicate holds, in their order.
pub fn filter(rows: &Vec<Vec<Value>>, names: &Vec<Vec<u8>>, predicate: &Option<Expression>) -> (out:
    Vec<Vec<Value>>)
    ensures
        rows_view(out@) == filter_rows(
            rows_view(rows@),
            texts_view(names@),
            predicate_view(*predicate),
        ),
{
    let ghost rv = rows_view(rows@);
    let mut out: Vec<Vec<Value>> = Vec::new();
    let mut i: usize = 0;
    assert(rv.take(0) =~= Seq::<Seq<Datum>>::empty());
    assert(rows_view(out@) =~= Seq::<Seq<Datum>>::empty());
    while i < rows.len()
        invariant
            i <= rows.len(),
            rv == rows_view(rows@),
            rows_view(out@) == filter_rows(
                rv.take(i as int),
                texts_view(names@),
                predicate_view(*predicate),
            ),
        decreases rows.len() - i,
    {
        proof {
            let next = rv.take(i + 1);
            assert(next.drop_last() =~= rv.take(i as int));
            assert(next.last() == row_view(rows[i as int]@));
        }
        if row_passes(predicate, names, &rows[i]) {
            let row: Vec<Value> = copy_row(&rows[i]);
            proof {
                lemma_rows_view_push(out@, row);
            }
            out.push(row);
        }
        i += 1;
    }
    assert(rv.take(rows.len() as int) =~= rv);
    out
}

/// Whether row `a` must come before row `b` under the keys.
pub fn row_comes_before(a: &Vec<Value>, b: &Vec<Value>, names: &Vec<Vec<u8>>, keys: &Vec<SortKey>) -> (before:
    bool)
    ensures
        before == row_before(row_view(a@), row_view(b@), texts_view(names@), keys_view(keys@)),
{
    let ghost av = row_view(a@);
    let ghost bv = row_view(b@);
    let ghost nv = texts_view(names@);
    let ghost kv = keys_view(keys@);
    let absent: Value = Cell::Absent;
    let mut i: usize = 0;
    while i < keys.len()
        invariant
            i <= keys.len(),
            av == row_view(a@),
            bv == row_view(b@),
            nv == texts_view(names@),
            kv == keys_view(keys@),
            absent@ == Datum::Absent,
            row_before(av, bv, nv, kv) == row_before_from(av, bv, nv, kv, i as int),
        decreases keys.len() - i,
    {
        assert(kv[i as int] == (keys[i as int].column@, keys[i as int].descending));
        let at: Option<usize> = find_column(names, &keys[i].column);
        let x: &Value = match at {
            Some(c) => if c < a.len() {
                &a[c]
            } else {
                &absent
            },
            None => &absent,
        };
        let y: &Value = match at {
            Some(c) => if c < b.len() {
                &b[c]
            } else {
                &absent
            },
            None => &absent,
        };
        let (lo, hi) = if keys[i].descending {
            (y, x)
        } else {
            (x, y)
        };
        if value_comes_before(lo, hi) {
            return true;
        }
        if value_comes_before(hi, lo) {
            return false;
        }
        i += 1;
    }
    false
}

/// The indices of a list, as contracts speak of them.
pub open spec fn indices_view(order: Seq<usize>) -> Seq<int> {
    Seq::new(order.len(), |i: int| order[i] as int)
}

/// Where the index `x` goes in an ordered list: at `at`, if every index from
/// `at` on has a row that must come after row `x`, and the index before `at`
/// has none.
proof fn lemma_insert_position(
    sorted: Seq<int>,
    x: int,
    rows: Seq<Seq<Datum>>,
    names: Seq<Seq<u8>>,
    keys: Seq<(Seq<u8>, bool)>,
    at: int,
)
    requires
        0 <= at <= sorted.len(),
        forall|i: int| at <= i < sorted.len() ==> row_before(rows[x], rows[#[trigger] sorted[i]], names, keys),
        at == 0 || !row_before(rows[x], rows[sorted[at - 1]], names, keys),
    ensures
        insert_index(sorted, x, rows, names, keys) == sorted.insert(at, x),
    decreases sorted.len(),
{
    if sorted.len() == 0 {
        assert(seq![x] =~= sorted.insert(at, x));
    } else if at == sorted.len() {
        assert(sorted.push(x) =~= sorted.insert(at, x));
    } else {
        assert(row_before(rows[x], rows[sorted[sorted.len() - 1]], names, keys));
        let front = sorted.drop_last();
        assert forall|i: int| at <= i < front.len() implies row_before(
            rows[x],
            rows[#[trigger] front[i]],
            names,
            keys,
        ) by {
            assert(front[i] == sorted[i]);
        }
        lemma_insert_position(front, x, rows, names, keys, at);
        assert(front.insert(at, x).push(sorted.last()) =~= sorted.insert(at, x));
    }
}

/// Where the row `x` goes among the rows that `order` lists.
fn insertion_point(
    order: &Vec<usize>,
    x: usize,
    rows: &Vec<Vec<Value>>,
    names: &Vec<Vec<u8>>,
    keys: &Vec<SortKey>,
) -> (at: usize)
    requires
        x < rows.len(),
        forall|i: int| 0 <= i < order.len() ==> order[i] < rows.len(),
    ensures
        at <= order.len(),
        forall|i: int|
            at <= i < order.len() ==> row_before(
                rows_view(rows@)[x as int],
                rows_view(rows@)[#[trigger] indices_view(order@)[i]],
                texts_view(names@),
                keys_view(keys@),
            ),
        at == 0 || !row_before(
            rows_view(rows@)[x as int],
            rows_view(rows@)[indices_view(order@)[at - 1]],
            texts_view(names@),
            keys_view(keys@),
        ),
{
    let mut at: usize = order.len();
    while at > 0
        invariant
            at <= order.len(),
            x < rows.len(),
            forall|i: int| 0 <= i < order.len() ==> order[i] < rows.len(),
            forall|i: int|
                at <= i < order.len() ==> row_before(
                    rows_view(rows@)[x as int],
                    rows_view(rows@)[#[trigger] indices_view(order@)[i]],
                    texts_view(names@),
                    keys_view(keys@),
                ),
        decreases at,
    {
        let other: usize = order[at - 1];
        assert(indices_view(order@)[at - 1] == other);
        assert(rows_view(rows@)[x as int] == row_view(rows[x as int]@));
        assert(rows_view(rows@)[other as int] == row_view(rows[other as int]@));
        if !row_comes_before(&rows[x], &rows[other], names, keys) {
            return at;
        }
        at -= 1;
    }
    at
}

/// The rows in the order of the keys, the first key deciding first; rows
/// that the keys do not tell apart keep the order they came in.
pub fn order(rows: &Vec<Vec<Value>>, names: &Vec<Vec<u8>>, keys: &Vec<SortKey>) -> (out: Vec<
    Vec<Value>,
>)
    ensures
        rows_view(out@) == order_rows(rows_view(rows@), texts_view(names@), keys_view(keys@)),
{
    let ghost rv = rows_view(rows@);
    let ghost nv = texts_view(names@);
    let ghost kv = keys_view(keys@);
    let mut perm: Vec<usize> = Vec::new();
    let mut k: usize = 0;
    assert(indices_view(perm@) =~= sort_order(rv, nv, kv, 0));
    while k < rows.len()
        invariant
            k <= rows.len(),
            rv == rows_view(rows@),
            nv == texts_view(names@),
            kv == keys_view(keys@),
            perm.len() == k,
            forall|i: int| 0 <= i < perm.len() ==> perm[i] < k,
            indices_view(perm@) == sort_order(rv, nv, kv, k as nat),
        decreases rows.len() - k,
    {
        let at: usize = insertion_point(&perm, k, rows, names, keys);
        let ghost before = perm@;
        proof {
            lemma_insert_position(indices_view(before), k as int, rv, nv, kv, at as int);
        }
        perm.insert(at, k);
        assert(indices_view(perm@) =~= indices_view(before).insert(at as int, k as int));
        assert forall|i: int| 0 <= i < perm.len() implies perm[i] < k + 1 by {
            if i < at {
                assert(perm[i] == before[i]);
            } else if i > at {
                assert(perm[i] == before[i - 1]);
            }
        }
        k += 1;
    }
    let mut out: Vec<Vec<Value>> = Vec::new();
    let mut i: usize = 0;
    while i < perm.len()
        invariant
            i <= perm.len(),
            perm.len() == rows.len(),
            rv == rows_view(rows@),
            forall|j: int| 0 <= j < perm.len() ==> perm[j] < rows.len(),
            out.len() == i,
            forall|j: int| 0 <= j < i ==> row_view(out[j]@) == rv[perm[j] as int],
        decreases perm.len() - i,
    {
        let row: Vec<Value> = copy_row(&rows[perm[i]]);
        assert(rv[perm[i as int] as int] == row_view(rows[perm[i as int] as int]@));
        out.push(row);
        i += 1;
    }
    assert(rows_view(out@) =~= order_rows(rv, nv, kv));
    out
}

/// The rows without the first `offset` of them, and of those at most
/// `limit`.
pub fn slice(rows: Vec<Vec<Value>>, offset: Option<usize>, limit: Option<usize>) -> (out: Vec<
    Vec<Value>,
>)
    ensures
        rows_view(out@) == slice_rows(rows_view(rows@), offset, limit),
{
    let count: usize = rows.len();
    let start: usize = match offset {
        Some(o) => if o <= count {
            o
        } else {
            count
        },
        None => 0,
    };
    let end: usize = match limit {
        Some(l) => if l <= count - start {
            start + l
        } else {
            count
        },
        None => count,
    };
    let mut kept: Vec<Vec<Value>> = rows;
    kept.truncate(end);
    let out: Vec<Vec<Value>> = kept.split_off(start);
    assert(out@ =~= rows@.subrange(start as int, end as int));
    assert(rows_view(out@) =~= slice_rows(rows_view(rows@), offset, limit));
    out
}

/// The row of the result for a row of the input.
fn project_one(row: &Vec<Value>, names: &Vec<Vec<u8>>, columns: &Vec<OutputColumn>) -> (out: Vec<
    Value,
>)
    ensures
        row_view(out@) == project_row(row_view(row@), texts_view(names@), outputs_view(columns@)),
{
    let mut out: Vec<Value> = Vec::new();
    let mut j: usize = 0;
    while j < columns.len()
        invariant
            j <= columns.len(),
            out.len() == j,
            forall|k: int|
                0 <= k < j ==> out[k]@ == crate::expr::eval(
                    outputs_view(columns@)[k].1,
                    texts_view(names@),
                    row_view(row@),
                ),
        decreases columns.len() - j,
    {
        assert(outputs_view(columns@)[j as int].1 == columns[j as int].expr@);
        out.push(evaluate(&columns[j].expr, names, row));
        j += 1;
    }
    assert(row_view(out@) =~= project_row(
        row_view(row@),
        texts_view(names@),
        outputs_view(columns@),
    ));
    out
}

/// The rows of the result: for every column of the input the rows as they
/// are, else one value per listed column.
pub fn project(rows: Vec<Vec<Value>>, names: &Vec<Vec<u8>>, projection: &Projection) -> (out: Vec<
    Vec<Value>,
>)
    ensures
        rows_view(out@) == project_rows(rows_view(rows@), texts_view(names@), projection@),
{
    match projection {
        Projection::All => rows,
        Projection::Columns(columns) => {
            let mut out: Vec<Vec<Value>> = Vec::new();
            let mut r: usize = 0;
            while r < rows.len()
                invariant
                    r <= rows.len(),
                    out.len() == r,
                    forall|k: int|
                        0 <= k < r ==> row_view(out[k]@) == project_row(
                            rows_view(rows@)[k],
                            texts_view(names@),
                            outputs_view(columns@),
                        ),
                decreases rows.len() - r,
            {
                assert(rows_view(rows@)[r as int] == row_view(rows[r as int]@));
                out.push(project_one(&rows[r], names, columns));
                r += 1;
            }
            assert(rows_view(out@) =~= project_rows(
                rows_view(rows@),
                texts_view(names@),
                projection@,
            ));
            out
        },
    }
}

/// Runs a query on a table: filter, then order, then slice, then project,
/// whatever order the statement had its clauses in. Fails, before any row
/// is read, with the first error of the stages in that order.
pub fn execute(table: DataSet, intent: &QueryIntent) -> (out: Result<DataSet, QueryError>)
    requires
        table.wf(),
    ensures
        match out {
            Ok(result) => run(table@, intent@) == Ok::<Relation, Refusal>(result@) && result.wf(),
            Err(e) => run(table@, intent@) == Err::<Relation, Refusal>(e@),
        },
{
    let ghost input = table@;
    let (names, types, rows) = table.into_parts();
    if let Some(e) = check_filter(&intent.predicate, &names, &types) {
        return Err(e);
    }
    if let Some(e) = check_order(&intent.ordering, &names) {
        return Err(e);
    }
    let (out_names, out_types) = match check_project(&intent.projection, &names, &types) {
        Ok(columns) => columns,
        Err(e) => {
            return Err(e);
        },
    };
    let filtered: Vec<Vec<Value>> = filter(&rows, &names, &intent.predicate);
    let ordered: Vec<Vec<Value>> = order(&filtered, &names, &intent.ordering);
    let sliced: Vec<Vec<Value>> = slice(ordered, intent.offset, intent.limit);
    let projected: Vec<Vec<Value>> = project(sliced, &names, &intent.projection);
    proof {
        lemma_run_well_formed(input, intent@);
    }
    Ok(DataSet::from_parts(out_names, out_types, projected))
}

} // verus!
