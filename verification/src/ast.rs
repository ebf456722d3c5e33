//! A statement as the grammar's parser hands it over. The tree has a place
//! for each clause that the translator reads or names in an error; whatever
//! else a statement holds is kept as the text it was written as. Which of
//! all this a query may hold is decided by the translator, not here.

use vstd::prelude::*;

verus! {

/// An operator on one operand, as parsed.
#[derive(Debug, PartialEq, Eq)]
pub enum SqlUnaryOp {
    Plus,
    Minus,
    Not,
    /// Any other operator, as it was written.
    Other(Vec<u8>),
}

/// An operator on two operands, as parsed.
#[derive(Debug, PartialEq, Eq)]
pub enum SqlBinaryOp {
    Plus,
    Minus,
    Multiply,
    Divide,
    Modulo,
    Gt,
    Lt,
    GtEq,
    LtEq,
    Eq,
    NotEq,
    And,
    Or,
    /// Any other operator, as it was written.
    Other(Vec<u8>),
}

/// An expression, as parsed.
#[derive(Debug, PartialEq, Eq)]
pub enum SqlExpr {
    /// A bare name.
    Identifier(Vec<u8>),
    /// A number literal, as it was written.
    Number(Vec<u8>),
    /// A text literal, without its quotes.
    Text(Vec<u8>),
    Boolean(bool),
    Null,
    /// A date literal, without the word `DATE` and its quotes.
    Date(Vec<u8>),
    Unary(SqlUnaryOp, Box<SqlExpr>),
    Binary(SqlBinaryOp, Box<SqlExpr>, Box<SqlExpr>),
    IsNull(Box<SqlExpr>),
    IsNotNull(Box<SqlExpr>),
    /// An expression in parentheses.
    Nested(Box<SqlExpr>),
    /// Any other construct, as it was written.
    Other(Vec<u8>),
}

/// An expression together with the text it was written as.
#[derive(Debug, PartialEq, Eq)]
pub struct Phrase {
    pub expr: SqlExpr,
    pub text: Vec<u8>,
}

/// An item of a select list.
#[derive(Debug, PartialEq, Eq)]
pub enum SqlSelectItem {
    /// `*`, and the options that follow it, as written, where there are any.
    Wildcard(Option<Vec<u8>>),
    /// An expression without an alias.
    Plain(Phrase),
    /// An expression with an alias.
    Aliased(Phrase, Vec<u8>),
    /// Any other item, as it was written.
    Other(Vec<u8>),
}

/// An item of an `ORDER BY` list.
#[derive(Debug, PartialEq, Eq)]
pub struct SqlOrderBy {
    pub phrase: Phrase,
    /// `ASC` or `DESC`; `None` where the statement does not say.
    pub ascending: Option<bool>,
    /// What else the item says (where nulls go, how gaps are filled, an
    /// operator to order by), as written.
    pub options: Option<Vec<u8>>,
}

/// What an item of a `FROM` list reads from.
#[derive(Debug, PartialEq, Eq)]
pub enum SqlRelation {
    /// A table by its name, one part per level of the name.
    Table(Vec<Vec<u8>>),
    /// A query in parentheses.
    Subquery,
    /// Anything else.
    Other,
}

/// An item of a `FROM` list, and the text it was written as.
#[derive(Debug, PartialEq, Eq)]
pub struct SqlTable {
    pub relation: SqlRelation,
    /// The alias of the relation, where it has one.
    pub alias: Option<Vec<u8>>,
    /// Whether the relation has arguments, hints or the like.
    pub adorned: bool,
    /// The number of joins that follow the relation.
    pub joins: usize,
    pub text: Vec<u8>,
}

/// A `SELECT`. Each clause that is held as text is held as it was written.
#[derive(Debug, PartialEq, Eq)]
pub struct SqlSelect {
    /// The `WITH` clause.
    pub with: Option<Vec<u8>>,
    /// `DISTINCT`, with what follows it.
    pub distinct: Option<Vec<u8>>,
    pub projection: Vec<SqlSelectItem>,
    pub from: Vec<SqlTable>,
    pub selection: Option<SqlExpr>,
    /// The `GROUP BY` clause.
    pub group_by: Option<Vec<u8>>,
    /// The `HAVING` clause.
    pub having: Option<Vec<u8>>,
    pub order_by: Vec<SqlOrderBy>,
    pub limit: Option<Phrase>,
    pub offset: Option<Phrase>,
    /// Every further clause that the statement holds, each by its keyword
    /// or as written, in the order they were met.
    pub rest: Vec<Vec<u8>>,
}

/// What a statement is.
#[derive(Debug, PartialEq, Eq)]
pub enum SqlBody {
    Select(SqlSelect),
    /// Any other statement.
    Other,
}

/// A statement, and the text it was written as.
#[derive(Debug, PartialEq, Eq)]
pub struct SqlStatement {
    pub body: SqlBody,
    pub text: Vec<u8>,
}

} // verus!
