//! A query from end to end: the content of the source, once it has been
//! fetched, is loaded and the query is run on it.

use vstd::prelude::*;
use crate::engine::execute;
use crate::error::{Failure, QueryError, Refusal};
use crate::intent::{Plan, QueryIntent};
use crate::load::{load, load_allows, loaded_view};
use crate::stages::run;
use crate::table::{DataSet, Relation};
use crate::value::copy_text;

verus! {

/// What a query gives once the content of its source is loaded: the error
/// of loading, or what running the query on the loaded table gives.
pub open spec fn follows(plan: Plan, loaded: Result<Relation, Refusal>) -> Result<Relation, Refusal> {
    match loaded {
        Err(e) => Err(e),
        Ok(t) => run(t, plan),
    }
}

/// What holds of the result of a query on what retrieval of its source
/// gave. Where retrieval gave nothing, the result is an error that names
/// the source. Else the result is what follows from an outcome of loading
/// the content.
pub open spec fn answers(plan: Plan, content: Option<Seq<u8>>, out: Result<Relation, Refusal>) -> bool {
    match content {
        None => out == Err::<Relation, Refusal>(Failure::SourceUnavailable(plan.source)),
        Some(bytes) => exists|loaded: Result<Relation, Refusal>|
            load_allows(plan.source, bytes, loaded) && out == #[trigger] follows(plan, loaded),
    }
}

/// What retrieval gave, as contracts speak of it.
pub open spec fn content_view(content: Option<&Vec<u8>>) -> Option<Seq<u8>> {
    match content {
        Some(bytes) => Some(bytes@),
        None => None,
    }
}

/// Answers a query from what retrieval of its source gave: the content, or
/// nothing where the source could not be reached or read. Nothing is kept
/// between two calls: the content is loaded and the query run afresh each
/// time.
pub fn query(intent: &QueryIntent, content: Option<&Vec<u8>>) -> (out: Result<DataSet, QueryError>)
    ensures
        answers(intent@, content_view(content), loaded_view(out)),
        out matches Ok(result) ==> result.wf(),
{
    match content {
        None => Err(Failure::SourceUnavailable(copy_text(&intent.source))),
        Some(bytes) => {
            let loaded = load(&intent.source, bytes);
            let ghost seen = loaded_view(loaded);
            match loaded {
                Err(e) => {
                    assert(loaded_view(Err::<DataSet, QueryError>(e)) == follows(intent@, seen));
                    Err(e)
                },
                Ok(table) => {
                    let out = execute(table, intent);
                    assert(loaded_view(out) == follows(intent@, seen));
                    out
                },
            }
        },
    }
}

/// On delimited text the result of a query is the one that the text and
/// the query give: the error of loading, or what running the query on the
/// table that the text holds gives.
pub proof fn law_query_delimited(plan: Plan, bytes: Seq<u8>, out: Result<Relation, Refusal>)
    requires
        crate::load::sniff(bytes) == Some(crate::load::ContentKind::DelimitedText),
        answers(plan, Some(bytes), out),
    ensures
        out == follows(plan, crate::load::delimited_outcome(plan.source, bytes)),
{
}

/// Two answers to one query on one delimited text are the same: the same
/// error, or the same table.
pub proof fn law_requery_identical(
    plan: Plan,
    bytes: Seq<u8>,
    first: Result<Relation, Refusal>,
    second: Result<Relation, Refusal>,
)
    requires
        crate::load::sniff(bytes) == Some(crate::load::ContentKind::DelimitedText),
        answers(plan, Some(bytes), first),
        answers(plan, Some(bytes), second),
    ensures
        first == second,
{
    law_query_delimited(plan, bytes, first);
    law_query_delimited(plan, bytes, second);
}

} // verus!
