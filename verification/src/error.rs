//! The errors of a query, each with what names its cause.

use vstd::prelude::*;

verus! {

/// The stage of execution in which an error arose.
#[derive(Clone, Copy, Debug, PartialEq, Eq, Structural)]
pub enum Stage {
    Filter,
    Order,
    Project,
}

/// Why a query failed. `T` is the type that holds text.
#[derive(Debug, PartialEq, Eq)]
pub enum Failure<T> {
    /// The text is not a statement of the grammar; holds the parser's words.
    Syntax(T),
    /// More than one statement, or a clause outside the restricted grammar;
    /// holds what was met.
    UnsupportedQuery(T),
    /// An expression outside the supported operators; holds the construct.
    UnsupportedExpression(T),
    /// An offset or a limit that is no non-negative integer; holds its text.
    InvalidArgument(T),
    /// The source could not be reached or read; holds its identifier.
    SourceUnavailable(T),
    /// The content is of no known format; holds the source's identifier.
    UnrecognizedFormat(T),
    /// The content has no consistent shape of rows and columns; holds the
    /// source's identifier and, where one row is at fault, its index.
    Load { source: T, row: Option<usize> },
    /// An expression names a column that the table does not have.
    UnknownColumn { column: T, stage: Stage },
    /// An operator is applied to operands of types that do not meet.
    TypeMismatch { stage: Stage },
    /// The result holds bytes that are no valid text.
    Encoding,
}

/// An error as executable code holds it.
pub type QueryError = Failure<Vec<u8>>;

/// An error as contracts speak of it.
pub type Refusal = Failure<Seq<u8>>;

impl View for Failure<Vec<u8>> {
    type V = Failure<Seq<u8>>;

    open spec fn view(&self) -> Failure<Seq<u8>> {
        match self {
            Failure::Syntax(t) => Failure::Syntax(t@),
            Failure::UnsupportedQuery(t) => Failure::UnsupportedQuery(t@),
            Failure::UnsupportedExpression(t) => Failure::UnsupportedExpression(t@),
            Failure::InvalidArgument(t) => Failure::InvalidArgument(t@),
            Failure::SourceUnavailable(t) => Failure::SourceUnavailable(t@),
            Failure::UnrecognizedFormat(t) => Failure::UnrecognizedFormat(t@),
            Failure::Load { source, row } => Failure::Load { source: source@, row: *row },
            Failure::UnknownColumn { column, stage } => Failure::UnknownColumn {
                column: column@,
                stage: *stage,
            },
            Failure::TypeMismatch { stage } => Failure::TypeMismatch { stage: *stage },
            Failure::Encoding => Failure::Encoding,
        }
    }
}

} // verus!
