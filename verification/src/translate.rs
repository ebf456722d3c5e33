//! The translator: a parsed statement to a query intent.

use vstd::prelude::*;
use crate::ast::{
    Phrase, SqlBinaryOp, SqlBody, SqlExpr, SqlOrderBy, SqlRelation, SqlSelect, SqlSelectItem,
    SqlStatement, SqlTable, SqlUnaryOp,
};
use crate::error::{Failure, QueryError, Refusal};
use crate::expr::{BinaryOp, Expr, Expression, Term, UnaryOp};
use crate::intent::{keys_view, outputs_view, OutputColumn, Plan, Projection, QueryIntent, SortKey};
use crate::text::{parse_date, parse_number, read_date, read_number};
use crate::value::{copy_text, Cell};

verus! {

/// The operator that a parsed binary operator stands for, or the text of
/// one that is not supported.
pub open spec fn lower_binary_op(op: SqlBinaryOp) -> Result<BinaryOp, Seq<u8>> {
    match op {
        SqlBinaryOp::Plus => Ok(BinaryOp::Add),
        SqlBinaryOp::Minus => Ok(BinaryOp::Subtract),
        SqlBinaryOp::Multiply => Ok(BinaryOp::Multiply),
        SqlBinaryOp::Divide => Ok(BinaryOp::Divide),
        SqlBinaryOp::Modulo => Ok(BinaryOp::Remainder),
        SqlBinaryOp::Gt => Ok(BinaryOp::Greater),
        SqlBinaryOp::Lt => Ok(BinaryOp::Less),
        SqlBinaryOp::GtEq => Ok(BinaryOp::GreaterOrEqual),
        SqlBinaryOp::LtEq => Ok(BinaryOp::LessOrEqual),
        SqlBinaryOp::Eq => Ok(BinaryOp::Equal),
        SqlBinaryOp::NotEq => Ok(BinaryOp::NotEqual),
        SqlBinaryOp::And => Ok(BinaryOp::And),
        SqlBinaryOp::Or => Ok(BinaryOp::Or),
        SqlBinaryOp::Other(text) => Err(text@),
    }
}

/// The expression that a parsed expression stands for. A number literal
/// must be a whole number of 64 bits in plain decimal, and a date literal a
/// date of the calendar. Fails with the text of the first construct, the
/// operands of an operator before the operator, that is not supported.
pub open spec fn lower(e: SqlExpr) -> Result<Term, Refusal>
    decreases e,
{
    match e {
        SqlExpr::Identifier(name) => Ok(Expr::Column(name@)),
        SqlExpr::Number(text) => match parse_number(text@) {
            Some(n) => Ok(Expr::Literal(Cell::Number(n))),
            None => Err(Failure::UnsupportedExpression(text@)),
        },
        SqlExpr::Text(text) => Ok(Expr::Literal(Cell::Text(text@))),
        SqlExpr::Boolean(b) => Ok(Expr::Literal(Cell::Boolean(b))),
        SqlExpr::Null => Ok(Expr::Literal(Cell::Absent)),
        SqlExpr::Date(text) => match parse_date(text@) {
            Some(d) => Ok(Expr::Literal(Cell::Temporal(d))),
            None => Err(Failure::UnsupportedExpression(text@)),
        },
        SqlExpr::Unary(op, operand) => match lower(*operand) {
            Err(f) => Err(f),
            Ok(inner) => match op {
                SqlUnaryOp::Plus => Ok(inner),
                SqlUnaryOp::Minus => Ok(Expr::Unary(UnaryOp::Negate, Box::new(inner))),
                SqlUnaryOp::Not => Ok(Expr::Unary(UnaryOp::Not, Box::new(inner))),
                SqlUnaryOp::Other(text) => Err(Failure::UnsupportedExpression(text@)),
            },
        },
        SqlExpr::Binary(op, left, right) => match lower(*left) {
            Err(f) => Err(f),
            Ok(a) => match lower(*right) {
                Err(f) => Err(f),
                Ok(b) => match lower_binary_op(op) {
                    Ok(o) => Ok(Expr::Binary(o, Box::new(a), Box::new(b))),
                    Err(text) => Err(Failure::UnsupportedExpression(text)),
                },
            },
        },
        SqlExpr::IsNull(operand) => match lower(*operand) {
            Err(f) => Err(f),
            Ok(inner) => Ok(Expr::Unary(UnaryOp::IsAbsent, Box::new(inner))),
        },
        SqlExpr::IsNotNull(operand) => match lower(*operand) {
            Err(f) => Err(f),
            Ok(inner) => Ok(Expr::Unary(UnaryOp::IsPresent, Box::new(inner))),
        },
        SqlExpr::Nested(inner) => lower(*inner),
        SqlExpr::Other(text) => Err(Failure::UnsupportedExpression(text@)),
    }
}

/// The column of the result that an item of a select list stands for: an
/// expression under its alias, or under the text it was written as. A `*`
/// with options is an unsupported query, named by the options, and so is a
/// `*` among other items.
pub open spec fn lower_item(item: SqlSelectItem) -> Result<(Seq<u8>, Term), Refusal> {
    match item {
        SqlSelectItem::Wildcard(Some(options)) => Err(Failure::UnsupportedQuery(options@)),
        SqlSelectItem::Wildcard(None) => Err(Failure::UnsupportedQuery(seq![42u8])),
        SqlSelectItem::Plain(phrase) => match lower(phrase.expr) {
            Ok(e) => Ok((phrase.text@, e)),
            Err(f) => Err(f),
        },
        SqlSelectItem::Aliased(phrase, alias) => match lower(phrase.expr) {
            Ok(e) => Ok((alias@, e)),
            Err(f) => Err(f),
        },
        SqlSelectItem::Other(text) => Err(Failure::UnsupportedExpression(text@)),
    }
}

/// The error of the first item of a select list, from `from` on, that
/// stands for no column.
pub open spec fn items_fault_from(items: Seq<SqlSelectItem>, from: int) -> Option<Refusal>
    decreases items.len() - from,
{
    if from < 0 || from >= items.len() {
        None
    } else {
        match lower_item(items[from]) {
            Err(f) => Some(f),
            Ok(_) => items_fault_from(items, from + 1),
        }
    }
}

/// Whether a select list is a lone `*` without options.
pub open spec fn lone_wildcard(items: Seq<SqlSelectItem>) -> bool {
    items.len() == 1 && items[0] == SqlSelectItem::Wildcard(None)
}

/// The projection that a select list stands for: every column for a lone
/// `*`, else the listed columns in their order.
pub open spec fn lower_projection(items: Seq<SqlSelectItem>) -> Result<
    Option<Seq<(Seq<u8>, Term)>>,
    Refusal,
> {
    if lone_wildcard(items) {
        Ok(None)
    } else {
        match items_fault_from(items, 0) {
            Some(f) => Err(f),
            None => Ok(Some(Seq::new(items.len(), |i: int| lower_item(items[i])->Ok_0))),
        }
    }
}

/// The key that an item of an `ORDER BY` list stands for: a bare column,
/// ascending unless the statement says otherwise. An item that says more
/// than a direction is an unsupported query, named by what it says; an
/// item that is no bare column is an unsupported expression.
pub open spec fn lower_key(item: SqlOrderBy) -> Result<(Seq<u8>, bool), Refusal> {
    match item.options {
        Some(options) => Err(Failure::UnsupportedQuery(options@)),
        None => match item.phrase.expr {
            SqlExpr::Identifier(name) => Ok((name@, item.ascending == Some(false))),
            _ => Err(Failure::UnsupportedExpression(item.phrase.text@)),
        },
    }
}

/// The error of the first item of an `ORDER BY` list, from `from` on, that
/// stands for no key.
pub open spec fn keys_fault_from(items: Seq<SqlOrderBy>, from: int) -> Option<Refusal>
    decreases items.len() - from,
{
    if from < 0 || from >= items.len() {
        None
    } else {
        match lower_key(items[from]) {
            Err(f) => Some(f),
            Ok(_) => keys_fault_from(items, from + 1),
        }
    }
}

/// The number of rows that an offset or a limit names: a number literal
/// that is a whole number, not negative, in plain decimal, and not above
/// what the machine can count. Anything else is an invalid argument, named
/// by the text it was written as.
pub open spec fn lower_bound(bound: Option<Phrase>) -> Result<Option<usize>, Refusal> {
    match bound {
        None => Ok(None),
        Some(phrase) => match phrase.expr {
            SqlExpr::Number(text) => match parse_number(text@) {
                Some(n) => if 0 <= n <= usize::MAX {
                    Ok(Some(n as usize))
                } else {
                    Err(Failure::InvalidArgument(phrase.text@))
                },
                None => Err(Failure::InvalidArgument(phrase.text@)),
            },
            _ => Err(Failure::InvalidArgument(phrase.text@)),
        },
    }
}

/// Whether an item of a `FROM` list is a table by a name of one part,
/// without an alias, arguments or joins.
pub open spec fn plain_table(table: SqlTable) -> bool {
    &&& table.joins == 0
    &&& table.alias is None
    &&& !table.adorned
    &&& table.relation matches SqlRelation::Table(parts) && parts.len() == 1
}

/// The source that a `FROM` list names. The list must have one item, else
/// the query is unsupported and named by the statement; the item must be a
/// plain table, else the query is unsupported and named by the item. So
/// joins, subqueries, aliases and names of several parts are refused.
pub open spec fn lower_source(from: Seq<SqlTable>, text: Seq<u8>) -> Result<Seq<u8>, Refusal> {
    if from.len() != 1 {
        Err(Failure::UnsupportedQuery(text))
    } else if plain_table(from[0]) {
        Ok(from[0].relation->Table_0[0]@)
    } else {
        Err(Failure::UnsupportedQuery(from[0].text@))
    }
}

/// The predicate that a `WHERE` clause stands for.
pub open spec fn lower_selection(selection: Option<SqlExpr>) -> Result<Option<Term>, Refusal> {
    match selection {
        None => Ok(None),
        Some(e) => match lower(e) {
            Ok(t) => Ok(Some(t)),
            Err(f) => Err(f),
        },
    }
}

/// An optional text, as contracts speak of it.
pub open spec fn text_view(text: Option<Vec<u8>>) -> Option<Seq<u8>> {
    match text {
        Some(t) => Some(t@),
        None => None,
    }
}

/// The first clause of a `SELECT` that is outside the restricted grammar.
/// The grammar has a select list, `FROM`, `WHERE`, `ORDER BY`, `LIMIT` and
/// `OFFSET`; `WITH`, `DISTINCT`, `GROUP BY`, `HAVING` and every further
/// clause are outside it, and are looked for in that order.
pub open spec fn outside_clause(select: SqlSelect) -> Option<Seq<u8>> {
    if select.with is Some {
        text_view(select.with)
    } else if select.distinct is Some {
        text_view(select.distinct)
    } else if select.group_by is Some {
        text_view(select.group_by)
    } else if select.having is Some {
        text_view(select.having)
    } else if select.rest.len() > 0 {
        Some(select.rest[0]@)
    } else {
        None
    }
}

/// The query intent of a `SELECT` that was written as `text`. Fails with
/// the first of: a clause outside the restricted grammar; a source that is
/// no plain table; an unsupported construct in the predicate, in the select
/// list, or in the ordering; an offset that is no count of rows; a limit
/// that is none.
pub open spec fn intent_of_select(select: SqlSelect, text: Seq<u8>) -> Result<Plan, Refusal> {
    if outside_clause(select) is Some {
        Err(Failure::UnsupportedQuery(outside_clause(select)->Some_0))
    } else if lower_source(select.from@, text) is Err {
        Err(lower_source(select.from@, text)->Err_0)
    } else if lower_selection(select.selection) is Err {
        Err(lower_selection(select.selection)->Err_0)
    } else if lower_projection(select.projection@) is Err {
        Err(lower_projection(select.projection@)->Err_0)
    } else if keys_fault_from(select.order_by@, 0) is Some {
        Err(keys_fault_from(select.order_by@, 0)->Some_0)
    } else if lower_bound(select.offset) is Err {
        Err(lower_bound(select.offset)->Err_0)
    } else if lower_bound(select.limit) is Err {
        Err(lower_bound(select.limit)->Err_0)
    } else {
        Ok(
            Plan {
                source: lower_source(select.from@, text)->Ok_0,
                predicate: lower_selection(select.selection)->Ok_0,
                outputs: lower_projection(select.projection@)->Ok_0,
                ordering: Seq::new(
                    select.order_by@.len(),
                    |i: int| lower_key(select.order_by@[i])->Ok_0,
                ),
                offset: lower_bound(select.offset)->Ok_0,
                limit: lower_bound(select.limit)->Ok_0,
            },
        )
    }
}

/// The query intent of the statements of one text. There must be one
/// statement, and it must be a `SELECT`: no statement is an unsupported
/// query without a text, a second statement and a statement of another kind
/// are unsupported queries named by their text.
pub open spec fn intent_of(statements: Seq<SqlStatement>) -> Result<Plan, Refusal> {
    if statements.len() == 0 {
        Err(Failure::UnsupportedQuery(Seq::empty()))
    } else if statements.len() > 1 {
        Err(Failure::UnsupportedQuery(statements[1].text@))
    } else {
        match statements[0].body {
            SqlBody::Select(select) => intent_of_select(select, statements[0].text@),
            SqlBody::Other => Err(Failure::UnsupportedQuery(statements[0].text@)),
        }
    }
}

fn translate_binary_op(op: &SqlBinaryOp) -> (out: Result<BinaryOp, Vec<u8>>)
    ensures
        match out {
            Ok(o) => lower_binary_op(*op) == Ok::<BinaryOp, Seq<u8>>(o),
            Err(text) => lower_binary_op(*op) == Err::<BinaryOp, Seq<u8>>(text@),
        },
{
    match op {
        SqlBinaryOp::Plus => Ok(BinaryOp::Add),
        SqlBinaryOp::Minus => Ok(BinaryOp::Subtract),
        SqlBinaryOp::Multiply => Ok(BinaryOp::Multiply),
        SqlBinaryOp::Divide => Ok(BinaryOp::Divide),
        SqlBinaryOp::Modulo => Ok(BinaryOp::Remainder),
        SqlBinaryOp::Gt => Ok(BinaryOp::Greater),
        SqlBinaryOp::Lt => Ok(BinaryOp::Less),
        SqlBinaryOp::GtEq => Ok(BinaryOp::GreaterOrEqual),
        SqlBinaryOp::LtEq => Ok(BinaryOp::LessOrEqual),
        SqlBinaryOp::Eq => Ok(BinaryOp::Equal),
        SqlBinaryOp::NotEq => Ok(BinaryOp::NotEqual),
        SqlBinaryOp::And => Ok(BinaryOp::And),
        SqlBinaryOp::Or => Ok(BinaryOp::Or),
        SqlBinaryOp::Other(text) => Err(copy_text(text)),
    }
}

/// The expression that a parsed expression stands for.
pub fn translate_expr(e: &SqlExpr) -> (out: Result<Expression, QueryError>)
    ensures
        match out {
            Ok(t) => lower(*e) == Ok::<Term, Refusal>(t@),
            Err(f) => lower(*e) == Err::<Term, Refusal>(f@),
        },
    decreases e,
{
    match e {
        SqlExpr::Identifier(name) => Ok(Expr::Column(copy_text(name))),
        SqlExpr::Number(text) => match read_number(text) {
            Some(n) => Ok(Expr::Literal(Cell::Number(n))),
            None => Err(Failure::UnsupportedExpression(copy_text(text))),
        },
        SqlExpr::Text(text) => Ok(Expr::Literal(Cell::Text(copy_text(text)))),
        SqlExpr::Boolean(b) => Ok(Expr::Literal(Cell::Boolean(*b))),
        SqlExpr::Null => Ok(Expr::Literal(Cell::Absent)),
        SqlExpr::Date(text) => match read_date(text) {
            Some(d) => Ok(Expr::Literal(Cell::Temporal(d))),
            None => Err(Failure::UnsupportedExpression(copy_text(text))),
        },
        SqlExpr::Unary(op, operand) => match translate_expr(operand) {
            Err(f) => Err(f),
            Ok(inner) => match op {
                SqlUnaryOp::Plus => Ok(inner),
                SqlUnaryOp::Minus => Ok(Expr::Unary(UnaryOp::Negate, Box::new(inner))),
                SqlUnaryOp::Not => Ok(Expr::Unary(UnaryOp::Not, Box::new(inner))),
                SqlUnaryOp::Other(text) => Err(Failure::UnsupportedExpression(copy_text(text))),
            },
        },
        SqlExpr::Binary(op, left, right) => match translate_expr(left) {
            Err(f) => Err(f),
            Ok(a) => match translate_expr(right) {
                Err(f) => Err(f),
                Ok(b) => match translate_binary_op(op) {
                    Ok(o) => Ok(Expr::Binary(o, Box::new(a), Box::new(b))),
                    Err(text) => Err(Failure::UnsupportedExpression(text)),
                },
            },
        },
        SqlExpr::IsNull(operand) => match translate_expr(operand) {
            Err(f) => Err(f),
            Ok(inner) => Ok(Expr::Unary(UnaryOp::IsAbsent, Box::new(inner))),
        },
        SqlExpr::IsNotNull(operand) => match translate_expr(operand) {
            Err(f) => Err(f),
            Ok(inner) => Ok(Expr::Unary(UnaryOp::IsPresent, Box::new(inner))),
        },
        SqlExpr::Nested(inner) => translate_expr(inner),
        SqlExpr::Other(text) => Err(Failure::UnsupportedExpression(copy_text(text))),
    }
}

fn translate_item(item: &SqlSelectItem) -> (out: Result<OutputColumn, QueryError>)
    ensures
        match out {
            Ok(column) => lower_item(*item) == Ok::<(Seq<u8>, Term), Refusal>(
                (column.name@, column.expr@),
            ),
            Err(f) => lower_item(*item) == Err::<(Seq<u8>, Term), Refusal>(f@),
        },
{
    match item {
        SqlSelectItem::Wildcard(Some(options)) => Err(
            Failure::UnsupportedQuery(copy_text(options)),
        ),
        SqlSelectItem::Wildcard(None) => {
            let mut star: Vec<u8> = Vec::new();
            star.push(42);
            assert(star@ =~= seq![42u8]);
            Err(Failure::UnsupportedQuery(star))
        },
        SqlSelectItem::Plain(phrase) => match translate_expr(&phrase.expr) {
            Ok(expr) => Ok(OutputColumn { name: copy_text(&phrase.text), expr }),
            Err(f) => Err(f),
        },
        SqlSelectItem::Aliased(phrase, alias) => match translate_expr(&phrase.expr) {
            Ok(expr) => Ok(OutputColumn { name: copy_text(alias), expr }),
            Err(f) => Err(f),
        },
        SqlSelectItem::Other(text) => Err(Failure::UnsupportedExpression(copy_text(text))),
    }
}

fn translate_projection(items: &Vec<SqlSelectItem>) -> (out: Result<Projection, QueryError>)
    ensures
        match out {
            Ok(p) => lower_projection(items@) == Ok::<Option<Seq<(Seq<u8>, Term)>>, Refusal>(p@),
            Err(f) => lower_projection(items@) == Err::<Option<Seq<(Seq<u8>, Term)>>, Refusal>(
                f@,
            ),
        },
{
    if items.len() == 1 {
        if let SqlSelectItem::Wildcard(None) = &items[0] {
            return Ok(Projection::All);
        }
    }
    let mut columns: Vec<OutputColumn> = Vec::new();
    let mut i: usize = 0;
    while i < items.len()
        invariant
            i <= items.len(),
            !lone_wildcard(items@),
            items_fault_from(items@, 0) == items_fault_from(items@, i as int),
            columns.len() == i,
            forall|k: int|
                0 <= k < i ==> lower_item(items[k]) == Ok::<(Seq<u8>, Term), Refusal>(
                    (#[trigger] columns[k].name@, columns[k].expr@),
                ),
        decreases items.len() - i,
    {
        match translate_item(&items[i]) {
            Ok(column) => {
                columns.push(column);
            },
            Err(f) => {
                return Err(f);
            },
        }
        i += 1;
    }
    assert(outputs_view(columns@) =~= Seq::new(
        items@.len(),
        |i: int| lower_item(items@[i])->Ok_0,
    ));
    Ok(Projection::Columns(columns))
}

fn translate_key(item: &SqlOrderBy) -> (out: Result<SortKey, QueryError>)
    ensures
        match out {
            Ok(key) => lower_key(*item) == Ok::<(Seq<u8>, bool), Refusal>(
                (key.column@, key.descending),
            ),
            Err(f) => lower_key(*item) == Err::<(Seq<u8>, bool), Refusal>(f@),
        },
{
    if let Some(options) = &item.options {
        return Err(Failure::UnsupportedQuery(copy_text(options)));
    }
    match &item.phrase.expr {
        SqlExpr::Identifier(name) => {
            let descending: bool = match item.ascending {
                Some(up) => !up,
                None => false,
            };
            Ok(SortKey { column: copy_text(name), descending })
        },
        _ => Err(Failure::UnsupportedExpression(copy_text(&item.phrase.text))),
    }
}

fn translate_keys(items: &Vec<SqlOrderBy>) -> (out: Result<Vec<SortKey>, QueryError>)
    ensures
        match out {
            Ok(keys) => keys_fault_from(items@, 0) is None && keys_view(keys@) == Seq::new(
                items@.len(),
                |i: int| lower_key(items@[i])->Ok_0,
            ),
            Err(f) => keys_fault_from(items@, 0) == Some(f@),
        },
{
    let mut keys: Vec<SortKey> = Vec::new();
    let mut i: usize = 0;
    while i < items.len()
        invariant
            i <= items.len(),
            keys_fault_from(items@, 0) == keys_fault_from(items@, i as int),
            keys.len() == i,
            forall|k: int|
                0 <= k < i ==> lower_key(items[k]) == Ok::<(Seq<u8>, bool), Refusal>(
                    (#[trigger] keys[k].column@, keys[k].descending),
                ),
        decreases items.len() - i,
    {
        match translate_key(&items[i]) {
            Ok(key) => {
                keys.push(key);
            },
            Err(f) => {
                return Err(f);
            },
        }
        i += 1;
    }
    assert(keys_view(keys@) =~= Seq::new(items@.len(), |i: int| lower_key(items@[i])->Ok_0));
    Ok(keys)
}

fn translate_bound(bound: &Option<Phrase>) -> (out: Result<Option<usize>, QueryError>)
    ensures
        match out {
            Ok(n) => lower_bound(*bound) == Ok::<Option<usize>, Refusal>(n),
            Err(f) => lower_bound(*bound) == Err::<Option<usize>, Refusal>(f@),
        },
{
    match bound {
        None => Ok(None),
        Some(phrase) => {
            if let SqlExpr::Number(text) = &phrase.expr {
                if let Some(n) = read_number(text) {
                    if n >= 0 && n as u64 <= usize::MAX as u64 {
                        return Ok(Some(n as usize));
                    }
                }
            }
            Err(Failure::InvalidArgument(copy_text(&phrase.text)))
        },
    }
}

fn translate_source(from: &Vec<SqlTable>, text: &Vec<u8>) -> (out: Result<Vec<u8>, QueryError>)
    ensures
        match out {
            Ok(name) => lower_source(from@, text@) == Ok::<Seq<u8>, Refusal>(name@),
            Err(f) => lower_source(from@, text@) == Err::<Seq<u8>, Refusal>(f@),
        },
{
    if from.len() != 1 {
        return Err(Failure::UnsupportedQuery(copy_text(text)));
    }
    let table: &SqlTable = &from[0];
    if table.joins == 0 && table.alias.is_none() && !table.adorned {
        if let SqlRelation::Table(parts) = &table.relation {
            if parts.len() == 1 {
                return Ok(copy_text(&parts[0]));
            }
        }
    }
    Err(Failure::UnsupportedQuery(copy_text(&table.text)))
}

/// The first clause of a `SELECT` that is outside the restricted grammar.
fn find_outside_clause(select: &SqlSelect) -> (out: Option<Vec<u8>>)
    ensures
        text_view(out) == outside_clause(*select),
{
    if let Some(clause) = &select.with {
        Some(copy_text(clause))
    } else if let Some(clause) = &select.distinct {
        Some(copy_text(clause))
    } else if let Some(clause) = &select.group_by {
        Some(copy_text(clause))
    } else if let Some(clause) = &select.having {
        Some(copy_text(clause))
    } else if select.rest.len() > 0 {
        Some(copy_text(&select.rest[0]))
    } else {
        None
    }
}

fn translate_select(select: &SqlSelect, text: &Vec<u8>) -> (out: Result<QueryIntent, QueryError>)
    ensures
        match out {
            Ok(q) => intent_of_select(*select, text@) == Ok::<Plan, Refusal>(q@),
            Err(f) => intent_of_select(*select, text@) == Err::<Plan, Refusal>(f@),
        },
{
    if let Some(clause) = find_outside_clause(select) {
        return Err(Failure::UnsupportedQuery(clause));
    }
    let source: Vec<u8> = match translate_source(&select.from, text) {
        Ok(s) => s,
        Err(f) => {
            return Err(f);
        },
    };
    let predicate: Option<Expression> = match &select.selection {
        None => None,
        Some(e) => match translate_expr(e) {
            Ok(t) => Some(t),
            Err(f) => {
                return Err(f);
            },
        },
    };
    let projection: Projection = match translate_projection(&select.projection) {
        Ok(p) => p,
        Err(f) => {
            return Err(f);
        },
    };
    let ordering: Vec<SortKey> = match translate_keys(&select.order_by) {
        Ok(k) => k,
        Err(f) => {
            return Err(f);
        },
    };
    let offset: Option<usize> = match translate_bound(&select.offset) {
        Ok(n) => n,
        Err(f) => {
            return Err(f);
        },
    };
    let limit: Option<usize> = match translate_bound(&select.limit) {
        Ok(n) => n,
        Err(f) => {
            return Err(f);
        },
    };
    Ok(QueryIntent { source, predicate, projection, ordering, offset, limit })
}

/// Translates the statements of one text into a query intent. Succeeds on
/// one `SELECT` of the restricted grammar, and fails with an unsupported
/// query, an unsupported expression or an invalid argument on anything
/// else, naming what it met.
pub fn translate(statements: &Vec<SqlStatement>) -> (out: Result<QueryIntent, QueryError>)
    ensures
        match out {
            Ok(q) => intent_of(statements@) == Ok::<Plan, Refusal>(q@),
            Err(f) => intent_of(statements@) == Err::<Plan, Refusal>(f@),
        },
{
    if statements.len() == 0 {
        return Err(Failure::UnsupportedQuery(Vec::new()));
    }
    if statements.len() > 1 {
        return Err(Failure::UnsupportedQuery(copy_text(&statements[1].text)));
    }
    match &statements[0].body {
        SqlBody::Select(select) => translate_select(select, &statements[0].text),
        SqlBody::Other => Err(Failure::UnsupportedQuery(copy_text(&statements[0].text))),
    }
}

} // verus!
