//! A single-statement SQL query engine over in-memory tables.
//!
//! A parsed statement is translated into a query intent (`translate`), the
//! content of the source is loaded into a table (`load`), the intent is run
//! on the table (`engine`), and the result is written as delimited text
//! (`csv`). What each stage does is stated in `stages`, `load`, `decode` and
//! `csv`; `laws` and `roundtrip` hold what is proved of all queries.

pub mod value;
pub mod expr;
pub mod error;
pub mod table;
pub mod intent;
pub mod stages;
pub mod engine;
pub mod text;
pub mod csv;
pub mod decode;
pub mod nesting;
pub mod frame;
pub mod load;
pub mod laws;
pub mod sorted;
pub mod roundtrip;
pub mod ast;
pub mod dialect;
pub mod translate;
pub mod query;
pub mod person;

pub use crate::ast::{
    Phrase, SqlBinaryOp, SqlBody, SqlExpr, SqlOrderBy, SqlRelation, SqlSelect, SqlSelectItem,
    SqlStatement, SqlTable, SqlUnaryOp,
};
pub use crate::engine::execute;
pub use crate::error::{Failure, QueryError, Stage};
pub use crate::expr::{BinaryOp, Expr, Expression, UnaryOp};
pub use crate::intent::{OutputColumn, Projection, QueryIntent, SortKey};
pub use crate::load::{detect_content, load, ContentKind};
pub use crate::person::Person;
pub use crate::query::query;
pub use crate::table::DataSet;
pub use crate::translate::translate;
pub use crate::value::{Cell, ColumnType, Date, Value};
