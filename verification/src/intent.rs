//! The query intent: what a statement asks for, in the form that is executed.

use vstd::prelude::*;
use crate::expr::{Expression, Term};

verus! {

/// One key of an ordering: a column, and whether larger values come first.
#[derive(Debug, PartialEq, Eq)]
pub struct SortKey {
    pub column: Vec<u8>,
    pub descending: bool,
}

/// One column of the result: its name and the expression that gives its
/// values.
#[derive(Debug, PartialEq, Eq)]
pub struct OutputColumn {
    pub name: Vec<u8>,
    pub expr: Expression,
}

/// The columns of the result.
#[derive(Debug, PartialEq, Eq)]
pub enum Projection {
    /// Every column of the input, in its order and with its type.
    All,
    /// The listed columns, in the order listed.
    Columns(Vec<OutputColumn>),
}

/// What a statement asks for. However the statement orders its clauses, the
/// predicate is applied first, then the ordering, then offset and limit, and
/// the projection last.
#[derive(Debug, PartialEq, Eq)]
pub struct QueryIntent {
    /// The identifier of the source; it is not looked at here.
    pub source: Vec<u8>,
    /// The rows to keep; all of them where there is no predicate.
    pub predicate: Option<Expression>,
    pub projection: Projection,
    /// The keys of the ordering, the primary key first.
    pub ordering: Vec<SortKey>,
    /// The number of rows to drop from the front; none where absent.
    pub offset: Option<usize>,
    /// The largest number of rows to keep; no bound where absent.
    pub limit: Option<usize>,
}

/// A query intent as contracts speak of it. `outputs` is `None` for every
/// column of the input.
pub struct Plan {
    pub source: Seq<u8>,
    pub predicate: Option<Term>,
    pub outputs: Option<Seq<(Seq<u8>, Term)>>,
    pub ordering: Seq<(Seq<u8>, bool)>,
    pub offset: Option<usize>,
    pub limit: Option<usize>,
}

/// The keys of an ordering, as contracts speak of them.
pub open spec fn keys_view(keys: Seq<SortKey>) -> Seq<(Seq<u8>, bool)> {
    Seq::new(keys.len(), |i: int| (keys[i].column@, keys[i].descending))
}

/// The listed columns of a result, as contracts speak of them.
pub open spec fn outputs_view(columns: Seq<OutputColumn>) -> Seq<(Seq<u8>, Term)> {
    Seq::new(columns.len(), |i: int| (columns[i].name@, columns[i].expr@))
}

/// An optional expression, as contracts speak of it.
pub open spec fn predicate_view(predicate: Option<Expression>) -> Option<Term> {
    match predicate {
        Some(e) => Some(e@),
        None => None,
    }
}

impl View for Projection {
    type V = Option<Seq<(Seq<u8>, Term)>>;

    open spec fn view(&self) -> Option<Seq<(Seq<u8>, Term)>> {
        match self {
            Projection::All => None,
            Projection::Columns(columns) => Some(outputs_view(columns@)),
        }
    }
}

impl View for QueryIntent {
    type V = Plan;

    open spec fn view(&self) -> Plan {
        Plan {
            source: self.source@,
            predicate: predicate_view(self.predicate),
            outputs: self.projection@,
            ordering: keys_view(self.ordering@),
            offset: self.offset,
            limit: self.limit,
        }
    }
}

} // verus!
