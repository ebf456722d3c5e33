//! What holds of every query: the order of the stages, that a result
//! depends on the table and the query alone, what an offset past the end
//! gives, and that ordering rearranges the rows and is stable. That
//! ordering sorts is in `sorted`, and that a written table is loaded back
//! in `roundtrip`.

use vstd::prelude::*;
use crate::csv::encode_table;
use crate::error::Refusal;
use crate::stages::{
    filter_rows, insert_index, lemma_sort_order_range, order_rows, output_names, output_types,
    project_rows, row_before, run, slice_rows, sort_order,
};
use crate::intent::Plan;
use crate::table::Relation;
use crate::value::Datum;

verus! {

/// The rows of a result are the rows of the table filtered first, ordered
/// second, sliced third and projected last. A query has its clauses as
/// fields, not in an order, so no order of clauses in a statement changes
/// this.
pub proof fn law_stage_order(t: Relation, plan: Plan)
    requires
        run(t, plan) is Ok,
    ensures
        run(t, plan)->Ok_0.rows == project_rows(
            slice_rows(
                order_rows(
                    filter_rows(t.rows, t.names, plan.predicate),
                    t.names,
                    plan.ordering,
                ),
                plan.offset,
                plan.limit,
            ),
            t.names,
            plan.outputs,
        ),
{
}

/// Two runs of one query on one table end alike: with the same error, or
/// with tables that are equal and are written as the same bytes.
pub proof fn law_rerun_identical(
    t: Relation,
    plan: Plan,
    first: Result<Relation, Refusal>,
    second: Result<Relation, Refusal>,
)
    requires
        first == run(t, plan),
        second == run(t, plan),
    ensures
        first == second,
        first is Ok ==> encode_table(first->Ok_0) == encode_table(second->Ok_0),
{
}

/// An offset that is at least the number of rows left by the filter gives a
/// table without rows, with the columns that the projection gives.
pub proof fn law_offset_past_end(t: Relation, plan: Plan)
    requires
        run(t, plan) is Ok,
        plan.offset is Some,
        plan.offset->Some_0 >= filter_rows(t.rows, t.names, plan.predicate).len(),
    ensures
        run(t, plan)->Ok_0.rows.len() == 0,
        run(t, plan)->Ok_0.names == output_names(t.names, plan.outputs),
        run(t, plan)->Ok_0.types == output_types(t.names, t.types, plan.outputs),
{
    let filtered = filter_rows(t.rows, t.names, plan.predicate);
    lemma_sort_order_range(filtered, t.names, plan.ordering, filtered.len());
}

/// A limit of zero gives a table without rows.
pub proof fn law_limit_zero(t: Relation, plan: Plan)
    requires
        run(t, plan) is Ok,
        plan.limit == Some(0usize),
    ensures
        run(t, plan)->Ok_0.rows.len() == 0,
{
    let filtered = filter_rows(t.rows, t.names, plan.predicate);
    lemma_sort_order_range(filtered, t.names, plan.ordering, filtered.len());
}

/// Where the index `x` goes in an ordered list of indices: behind the last
/// index whose row need not come after row `x`.
pub open spec fn insert_at(
    sorted: Seq<int>,
    x: int,
    rows: Seq<Seq<Datum>>,
    names: Seq<Seq<u8>>,
    keys: Seq<(Seq<u8>, bool)>,
) -> int
    decreases sorted.len(),
{
    if sorted.len() == 0 {
        0
    } else if row_before(rows[x], rows[sorted.last()], names, keys) {
        insert_at(sorted.drop_last(), x, rows, names, keys)
    } else {
        sorted.len() as int
    }
}

/// Putting an index into an ordered list places it at `insert_at`, in front
/// of indices whose rows must all come after its row, and moves no other
/// index past another.
pub proof fn lemma_insert_at(
    sorted: Seq<int>,
    x: int,
    rows: Seq<Seq<Datum>>,
    names: Seq<Seq<u8>>,
    keys: Seq<(Seq<u8>, bool)>,
)
    ensures
        0 <= insert_at(sorted, x, rows, names, keys) <= sorted.len(),
        insert_index(sorted, x, rows, names, keys) == sorted.insert(
            insert_at(sorted, x, rows, names, keys),
            x,
        ),
        forall|i: int|
            insert_at(sorted, x, rows, names, keys) <= i < sorted.len() ==> row_before(
                rows[x],
                rows[#[trigger] sorted[i]],
                names,
                keys,
            ),
    decreases sorted.len(),
{
    if sorted.len() == 0 {
        assert(seq![x] =~= sorted.insert(0, x));
    } else if row_before(rows[x], rows[sorted.last()], names, keys) {
        let front = sorted.drop_last();
        lemma_insert_at(front, x, rows, names, keys);
        let at = insert_at(front, x, rows, names, keys);
        assert(front.insert(at, x).push(sorted.last()) =~= sorted.insert(at, x));
        assert forall|i: int| at <= i < sorted.len() implies row_before(
            rows[x],
            rows[#[trigger] sorted[i]],
            names,
            keys,
        ) by {
            if i < front.len() {
                assert(front[i] == sorted[i]);
            }
        }
    } else {
        assert(sorted.push(x) =~= sorted.insert(sorted.len() as int, x));
    }
}

/// Ordering is a rearrangement: the order of the rows lists every index of
/// a row, and none twice.
pub proof fn law_order_rearranges(
    rows: Seq<Seq<Datum>>,
    names: Seq<Seq<u8>>,
    keys: Seq<(Seq<u8>, bool)>,
    count: nat,
)
    ensures
        sort_order(rows, names, keys, count).len() == count,
        forall|i: int|
            0 <= i < count ==> 0 <= #[trigger] sort_order(rows, names, keys, count)[i] < count,
        forall|i: int, j: int|
            0 <= i < j < count ==> sort_order(rows, names, keys, count)[i] != sort_order(
                rows,
                names,
                keys,
                count,
            )[j],
    decreases count,
{
    lemma_sort_order_range(rows, names, keys, count);
    if count > 0 {
        let before = sort_order(rows, names, keys, (count - 1) as nat);
        let after = sort_order(rows, names, keys, count);
        law_order_rearranges(rows, names, keys, (count - 1) as nat);
        lemma_insert_at(before, count - 1, rows, names, keys);
        let at = insert_at(before, count - 1, rows, names, keys);
        assert forall|i: int, j: int| 0 <= i < j < count implies after[i] != after[j] by {
            let p = if i < at { i } else { i - 1 };
            let q = if j < at { j } else { j - 1 };
            if i != at && j != at {
                assert(after[i] == before[p]);
                assert(after[j] == before[q]);
            } else if i == at {
                assert(after[j] == before[q]);
            } else {
                assert(after[i] == before[p]);
            }
        }
    }
}

/// Ordering is stable: of two rows that the keys do not tell apart, the one
/// that came first in the input comes first in the output.
pub proof fn law_order_stable(
    rows: Seq<Seq<Datum>>,
    names: Seq<Seq<u8>>,
    keys: Seq<(Seq<u8>, bool)>,
    count: nat,
    a: int,
    b: int,
)
    requires
        0 <= a < b < count,
        !row_before(
            rows[sort_order(rows, names, keys, count)[a]],
            rows[sort_order(rows, names, keys, count)[b]],
            names,
            keys,
        ),
        !row_before(
            rows[sort_order(rows, names, keys, count)[b]],
            rows[sort_order(rows, names, keys, count)[a]],
            names,
            keys,
        ),
    ensures
        sort_order(rows, names, keys, count)[a] < sort_order(rows, names, keys, count)[b],
    decreases count,
{
    let before = sort_order(rows, names, keys, (count - 1) as nat);
    let after = sort_order(rows, names, keys, count);
    lemma_sort_order_range(rows, names, keys, (count - 1) as nat);
    lemma_insert_at(before, count - 1, rows, names, keys);
    let at = insert_at(before, count - 1, rows, names, keys);
    if a == at {
        assert(after[b] == before[b - 1]);
        assert(row_before(rows[count - 1], rows[before[b - 1]], names, keys));
    } else if b == at {
        assert(after[a] == before[a]);
    } else {
        let p = if a < at { a } else { a - 1 };
        let q = if b < at { b } else { b - 1 };
        assert(after[a] == before[p]);
        assert(after[b] == before[q]);
        law_order_stable(rows, names, keys, (count - 1) as nat, p, q);
    }
}

} // verus!
