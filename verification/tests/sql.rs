use queryer::dialect::{is_identifier_part, is_identifier_start};
use queryer::{
    query, translate, Cell, ColumnType, Failure, Phrase, QueryError, QueryIntent, SqlBinaryOp,
    SqlBody, SqlExpr, SqlOrderBy, SqlRelation, SqlSelect, SqlSelectItem, SqlStatement, SqlTable,
    SqlUnaryOp, Stage,
};
use sqlparser::ast;
use sqlparser::dialect::Dialect;
use sqlparser::parser::Parser;

#[derive(Debug, Default)]
struct TyrDialect;

impl Dialect for TyrDialect {
    fn is_identifier_start(&self, ch: char) -> bool {
        is_identifier_start(ch)
    }

    fn is_identifier_part(&self, ch: char) -> bool {
        is_identifier_part(ch)
    }
}

fn b(text: &str) -> Vec<u8> {
    text.as_bytes().to_vec()
}

fn written(item: &dyn std::fmt::Display) -> Vec<u8> {
    format!("{}", item).into_bytes()
}

fn unary_op(op: &ast::UnaryOperator) -> SqlUnaryOp {
    match op {
        ast::UnaryOperator::Plus => SqlUnaryOp::Plus,
        ast::UnaryOperator::Minus => SqlUnaryOp::Minus,
        ast::UnaryOperator::Not => SqlUnaryOp::Not,
        other => SqlUnaryOp::Other(written(other)),
    }
}

fn binary_op(op: &ast::BinaryOperator) -> SqlBinaryOp {
    match op {
        ast::BinaryOperator::Plus => SqlBinaryOp::Plus,
        ast::BinaryOperator::Minus => SqlBinaryOp::Minus,
        ast::BinaryOperator::Multiply => SqlBinaryOp::Multiply,
        ast::BinaryOperator::Divide => SqlBinaryOp::Divide,
        ast::BinaryOperator::Modulo => SqlBinaryOp::Modulo,
        ast::BinaryOperator::Gt => SqlBinaryOp::Gt,
        ast::BinaryOperator::Lt => SqlBinaryOp::Lt,
        ast::BinaryOperator::GtEq => SqlBinaryOp::GtEq,
        ast::BinaryOperator::LtEq => SqlBinaryOp::LtEq,
        ast::BinaryOperator::Eq => SqlBinaryOp::Eq,
        ast::BinaryOperator::NotEq => SqlBinaryOp::NotEq,
        ast::BinaryOperator::And => SqlBinaryOp::And,
        ast::BinaryOperator::Or => SqlBinaryOp::Or,
        other => SqlBinaryOp::Other(written(other)),
    }
}

fn expr(e: &ast::Expr) -> SqlExpr {
    match e {
        ast::Expr::Identifier(id) => SqlExpr::Identifier(b(&id.value)),
        ast::Expr::Value(v) => match &v.value {
            ast::Value::Number(n, _) => SqlExpr::Number(written(n)),
            ast::Value::SingleQuotedString(s) => SqlExpr::Text(b(s)),
            ast::Value::Boolean(t) => SqlExpr::Boolean(*t),
            ast::Value::Null => SqlExpr::Null,
            _ => SqlExpr::Other(written(e)),
        },
        ast::Expr::TypedString(t) => match (&t.data_type, &t.value.value) {
            (ast::DataType::Date, ast::Value::SingleQuotedString(s)) => SqlExpr::Date(b(s)),
            _ => SqlExpr::Other(written(e)),
        },
        ast::Expr::UnaryOp { op, expr: inner } => {
            SqlExpr::Unary(unary_op(op), Box::new(expr(inner)))
        }
        ast::Expr::BinaryOp { left, op, right } => {
            SqlExpr::Binary(binary_op(op), Box::new(expr(left)), Box::new(expr(right)))
        }
        ast::Expr::IsNull(inner) => SqlExpr::IsNull(Box::new(expr(inner))),
        ast::Expr::IsNotNull(inner) => SqlExpr::IsNotNull(Box::new(expr(inner))),
        ast::Expr::Nested(inner) => SqlExpr::Nested(Box::new(expr(inner))),
        other => SqlExpr::Other(written(other)),
    }
}

fn phrase(e: &ast::Expr) -> Phrase {
    Phrase { expr: expr(e), text: written(e) }
}

fn select_item(item: &ast::SelectItem) -> SqlSelectItem {
    match item {
        ast::SelectItem::UnnamedExpr(e) => SqlSelectItem::Plain(phrase(e)),
        ast::SelectItem::ExprWithAlias { expr: e, alias } => {
            SqlSelectItem::Aliased(phrase(e), b(&alias.value))
        }
        ast::SelectItem::Wildcard(options) => {
            let bare = options.opt_ilike.is_none()
                && options.opt_exclude.is_none()
                && options.opt_except.is_none()
                && options.opt_replace.is_none()
                && options.opt_rename.is_none()
                && options.opt_alias.is_none();
            SqlSelectItem::Wildcard(if bare { None } else { Some(written(item)) })
        }
        other => SqlSelectItem::Other(written(other)),
    }
}

fn name_parts(name: &ast::ObjectName) -> Option<Vec<Vec<u8>>> {
    let mut parts = vec![];
    for part in &name.0 {
        match part {
            ast::ObjectNamePart::Identifier(id) => parts.push(b(&id.value)),
            _ => return None,
        }
    }
    Some(parts)
}

fn table(from: &ast::TableWithJoins) -> SqlTable {
    let (relation, alias, adorned) = match &from.relation {
        ast::TableFactor::Table {
            name,
            alias,
            args,
            with_hints,
            version,
            with_ordinality,
            partitions,
            json_path,
            sample,
            index_hints,
        } => (
            match name_parts(name) {
                Some(parts) => SqlRelation::Table(parts),
                None => SqlRelation::Other,
            },
            alias.as_ref().map(|a| written(a)),
            args.is_some()
                || !with_hints.is_empty()
                || version.is_some()
                || *with_ordinality
                || !partitions.is_empty()
                || json_path.is_some()
                || sample.is_some()
                || !index_hints.is_empty(),
        ),
        ast::TableFactor::Derived { alias, .. } => {
            (SqlRelation::Subquery, alias.as_ref().map(|a| written(a)), false)
        }
        _ => (SqlRelation::Other, None, false),
    };
    SqlTable { relation, alias, adorned, joins: from.joins.len(), text: written(from) }
}

fn order_by(item: &ast::OrderByExpr) -> SqlOrderBy {
    let ascending = match &item.options.sort {
        Some(ast::OrderBySort::Asc) => Some(true),
        Some(ast::OrderBySort::Desc) => Some(false),
        _ => None,
    };
    let more = item.options.nulls_first.is_some()
        || item.with_fill.is_some()
        || matches!(&item.options.sort, Some(ast::OrderBySort::Using(_)));
    SqlOrderBy {
        phrase: phrase(&item.expr),
        ascending,
        options: if more { Some(written(item)) } else { None },
    }
}

fn select(q: &ast::Query, s: &ast::Select) -> SqlSelect {
    let mut rest: Vec<Vec<u8>> = vec![];
    let mut note = |present: bool, clause: &str| {
        if present {
            rest.push(b(clause));
        }
    };
    note(s.top.is_some(), "TOP");
    note(s.into.is_some(), "INTO");
    note(!s.lateral_views.is_empty(), "LATERAL VIEW");
    note(s.prewhere.is_some(), "PREWHERE");
    note(!s.connect_by.is_empty(), "CONNECT BY");
    note(!s.cluster_by.is_empty(), "CLUSTER BY");
    note(!s.distribute_by.is_empty(), "DISTRIBUTE BY");
    note(!s.sort_by.is_empty(), "SORT BY");
    note(!s.named_window.is_empty(), "WINDOW");
    note(s.qualify.is_some(), "QUALIFY");
    note(s.exclude.is_some(), "EXCLUDE");
    note(s.value_table_mode.is_some(), "AS VALUE");
    note(q.fetch.is_some(), "FETCH");
    note(!q.locks.is_empty(), "FOR UPDATE");
    note(q.for_clause.is_some(), "FOR");
    note(q.settings.is_some(), "SETTINGS");
    note(q.format_clause.is_some(), "FORMAT");
    note(!q.pipe_operators.is_empty(), "|>");
    let mut keys = vec![];
    if let Some(ordering) = &q.order_by {
        note(ordering.interpolate.is_some(), "INTERPOLATE");
        match &ordering.kind {
            ast::OrderByKind::Expressions(items) => keys = items.iter().map(order_by).collect(),
            ast::OrderByKind::All(_) => note(true, "ORDER BY ALL"),
        }
    }
    let mut limit = None;
    let mut offset = None;
    match &q.limit_clause {
        None => {}
        Some(ast::LimitClause::LimitOffset { limit: l, offset: o, limit_by }) => {
            note(!limit_by.is_empty(), "LIMIT BY");
            limit = l.as_ref().map(phrase);
            offset = o.as_ref().map(|o| phrase(&o.value));
        }
        Some(ast::LimitClause::OffsetCommaLimit { offset: o, limit: l }) => {
            limit = Some(phrase(l));
            offset = Some(phrase(o));
        }
    }
    let group_by = match &s.group_by {
        ast::GroupByExpr::Expressions(keys, more) if keys.is_empty() && more.is_empty() => None,
        other => Some(written(other)),
    };
    SqlSelect {
        with: q.with.as_ref().map(|w| written(w)),
        distinct: s.distinct.as_ref().map(|d| written(d)),
        projection: s.projection.iter().map(select_item).collect(),
        from: s.from.iter().map(table).collect(),
        selection: s.selection.as_ref().map(expr),
        group_by,
        having: s.having.as_ref().map(|h| format!("HAVING {}", h).into_bytes()),
        order_by: keys,
        limit,
        offset,
        rest,
    }
}

fn statement(stmt: &ast::Statement) -> SqlStatement {
    let body = match stmt {
        ast::Statement::Query(q) => match q.body.as_ref() {
            ast::SetExpr::Select(s) => SqlBody::Select(select(q, s)),
            _ => SqlBody::Other,
        },
        _ => SqlBody::Other,
    };
    SqlStatement { body, text: written(stmt) }
}

fn parse(sql: &str) -> Result<QueryIntent, QueryError> {
    match Parser::parse_sql(&TyrDialect, sql) {
        Ok(statements) => translate(&statements.iter().map(statement).collect()),
        Err(e) => Err(Failure::Syntax(written(&e))),
    }
}

fn run(sql: &str, content: &str) -> Result<String, QueryError> {
    let intent = parse(sql)?;
    query(&intent, Some(&b(content)))?.to_csv()
}

#[test]
fn sql_selects_name_where_age_above_26() {
    let intent =
        parse("SELECT name FROM src WHERE age > 26 ORDER BY name LIMIT 10").unwrap();
    assert_eq!(intent.source, b("src"));
    let result = query(&intent, Some(&b("name,age\nAnn,30\nBob,25\n"))).unwrap();
    assert_eq!(result.column_names(), &vec![b("name")]);
    assert_eq!(result.height(), 1);
    assert_eq!(result.cell(0, 0), Some(Cell::Text(b("Ann"))));
}

#[test]
fn sql_offset_past_the_end_keeps_the_columns() {
    let intent = parse("SELECT * FROM src OFFSET 5 LIMIT 5").unwrap();
    assert_eq!(intent.offset, Some(5));
    assert_eq!(intent.limit, Some(5));
    let result = query(&intent, Some(&b("name,age\nAnn,30\nBob,25\nCid,41\n"))).unwrap();
    assert_eq!(result.height(), 0);
    assert_eq!(result.column_names(), &vec![b("name"), b("age")]);
    assert_eq!(result.column_types(), &vec![ColumnType::Text, ColumnType::Numeric]);
}

#[test]
fn sql_unknown_column_is_named() {
    let err = run("SELECT foo FROM src", "name,age\nAnn,30\nBob,25\n").unwrap_err();
    assert_eq!(err, Failure::UnknownColumn { column: b("foo"), stage: Stage::Project });
}

#[test]
fn sql_clause_order_does_not_change_the_result() {
    let content = "name,age\nAnn,30\nBob,25\nCid,41\nDee,19\n";
    let one = run("SELECT name FROM src WHERE age > 20 ORDER BY age DESC LIMIT 2 OFFSET 1", content)
        .unwrap();
    let other =
        run("SELECT name FROM src WHERE age > 20 ORDER BY age DESC OFFSET 1 LIMIT 2", content)
            .unwrap();
    assert_eq!(one, "name\nAnn\nBob\n");
    assert_eq!(one, other);
}

#[test]
fn sql_source_may_be_a_location() {
    let intent = parse("SELECT a, b AS c FROM https://example.com/data/latest.csv?x=1&y=2").unwrap();
    assert_eq!(intent.source, b("https://example.com/data/latest.csv?x=1&y=2"));
    let result = query(&intent, Some(&b("a,b\n1,2\n"))).unwrap();
    assert_eq!(result.to_csv().unwrap(), "a,c\n1,2\n");
}

#[test]
fn sql_expressions_are_evaluated() {
    let out = run(
        "SELECT name, age + 1 AS next, age % 7 FROM src WHERE NOT (age < 26 OR name IS NULL) AND born >= DATE '1990-01-01'",
        "name,age,born\nAnn,30,1994-05-06\nBob,25,1999-01-01\nCid,41,1983-07-08\n,50,2000-01-01\n",
    )
    .unwrap();
    assert_eq!(out, "name,next,age % 7\nAnn,31,2\n");
}

#[test]
fn sql_that_is_no_statement_is_a_syntax_error() {
    assert!(matches!(parse("SELECT FROM WHERE"), Err(Failure::Syntax(_))));
    assert!(matches!(parse("SELEKT a FROM b"), Err(Failure::Syntax(_))));
}

#[test]
fn sql_outside_the_grammar_is_unsupported() {
    assert_eq!(parse(""), Err(Failure::UnsupportedQuery(vec![])));
    assert_eq!(
        parse("SELECT a FROM b; SELECT c FROM d"),
        Err(Failure::UnsupportedQuery(b("SELECT c FROM d")))
    );
    assert!(matches!(parse("DELETE FROM src"), Err(Failure::UnsupportedQuery(_))));
    assert_eq!(
        parse("SELECT a FROM b GROUP BY a"),
        Err(Failure::UnsupportedQuery(b("GROUP BY a")))
    );
    assert_eq!(
        parse("SELECT a FROM b JOIN c ON x > y"),
        Err(Failure::UnsupportedQuery(b("b JOIN c ON x > y")))
    );
    assert!(matches!(
        parse("SELECT a FROM (SELECT a FROM b) AS t"),
        Err(Failure::UnsupportedQuery(_))
    ));
    assert!(matches!(parse("SELECT a FROM b, c"), Err(Failure::UnsupportedQuery(_))));
    assert_eq!(parse("SELECT *, a FROM b"), Err(Failure::UnsupportedQuery(b("*"))));
    assert_eq!(parse("SELECT DISTINCT a FROM b"), Err(Failure::UnsupportedQuery(b("DISTINCT"))));
    assert_eq!(
        parse("SELECT a FROM b GROUP BY a HAVING a > 1"),
        Err(Failure::UnsupportedQuery(b("GROUP BY a")))
    );
    assert_eq!(parse("SELECT a FROM b AS t"), Err(Failure::UnsupportedQuery(b("b AS t"))));
    assert_eq!(parse("SELECT a FROM s.b").unwrap().source, b("s.b"));
    assert_eq!(
        parse("SELECT a FROM b ORDER BY a NULLS FIRST"),
        Err(Failure::UnsupportedQuery(b("a NULLS FIRST")))
    );
    assert_eq!(
        parse("WITH t AS (SELECT 1) SELECT a FROM b"),
        Err(Failure::UnsupportedQuery(b("WITH t AS (SELECT 1)")))
    );
    assert_eq!(
        parse("SELECT a FROM b FETCH FIRST 2 ROWS ONLY"),
        Err(Failure::UnsupportedQuery(b("FETCH")))
    );
}

#[test]
fn statements_outside_the_grammar_are_refused_clause_by_clause() {
    let plain = || SqlSelect {
        with: None,
        distinct: None,
        projection: vec![SqlSelectItem::Wildcard(None)],
        from: vec![SqlTable {
            relation: SqlRelation::Table(vec![b("t")]),
            alias: None,
            adorned: false,
            joins: 0,
            text: b("t"),
        }],
        selection: None,
        group_by: None,
        having: None,
        order_by: vec![],
        limit: None,
        offset: None,
        rest: vec![],
    };
    let run = |select: SqlSelect| {
        translate(&vec![SqlStatement { body: SqlBody::Select(select), text: b("whole") }])
    };
    assert!(run(plain()).is_ok());
    let mut s = plain();
    s.having = Some(b("HAVING x"));
    s.rest = vec![b("TOP"), b("INTO")];
    assert_eq!(run(s), Err(Failure::UnsupportedQuery(b("HAVING x"))));
    let mut s = plain();
    s.rest = vec![b("TOP"), b("INTO")];
    assert_eq!(run(s), Err(Failure::UnsupportedQuery(b("TOP"))));
    let mut s = plain();
    s.projection = vec![SqlSelectItem::Wildcard(Some(b("* EXCLUDE (a)")))];
    assert_eq!(run(s), Err(Failure::UnsupportedQuery(b("* EXCLUDE (a)"))));
    let mut s = plain();
    s.from[0].adorned = true;
    assert_eq!(run(s), Err(Failure::UnsupportedQuery(b("t"))));
    let mut s = plain();
    s.from[0].relation = SqlRelation::Subquery;
    assert_eq!(run(s), Err(Failure::UnsupportedQuery(b("t"))));
    let mut s = plain();
    s.from[0].relation = SqlRelation::Table(vec![b("s"), b("t")]);
    assert_eq!(run(s), Err(Failure::UnsupportedQuery(b("t"))));
    let mut s = plain();
    s.from[0].alias = Some(b("x"));
    assert_eq!(run(s), Err(Failure::UnsupportedQuery(b("t"))));
    let mut s = plain();
    s.from[0].joins = 1;
    assert_eq!(run(s), Err(Failure::UnsupportedQuery(b("t"))));
    let mut s = plain();
    s.from = vec![];
    assert_eq!(run(s), Err(Failure::UnsupportedQuery(b("whole"))));
    assert_eq!(
        translate(&vec![SqlStatement { body: SqlBody::Other, text: b("DROP") }]),
        Err(Failure::UnsupportedQuery(b("DROP")))
    );
}

#[test]
fn sql_expressions_outside_the_operators_are_unsupported() {
    assert_eq!(
        parse("SELECT a FROM b WHERE upper(a) > 1"),
        Err(Failure::UnsupportedExpression(b("upper(a)")))
    );
    assert_eq!(
        parse("SELECT a FROM b WHERE a > 1.5"),
        Err(Failure::UnsupportedExpression(b("1.5")))
    );
    assert_eq!(
        parse("SELECT a FROM b WHERE a LIKE 'x'"),
        Err(Failure::UnsupportedExpression(b("a LIKE 'x'")))
    );
    assert_eq!(
        parse("SELECT a FROM b ORDER BY a + 1"),
        Err(Failure::UnsupportedExpression(b("a + 1")))
    );
    assert_eq!(
        parse("SELECT a FROM b WHERE d > DATE '2023-02-30'"),
        Err(Failure::UnsupportedExpression(b("2023-02-30")))
    );
}

#[test]
fn sql_offset_and_limit_must_be_counts() {
    assert_eq!(parse("SELECT a FROM b LIMIT -1"), Err(Failure::InvalidArgument(b("-1"))));
    assert_eq!(parse("SELECT a FROM b LIMIT 1.5"), Err(Failure::InvalidArgument(b("1.5"))));
    assert_eq!(parse("SELECT a FROM b OFFSET 'x'"), Err(Failure::InvalidArgument(b("'x'"))));
    assert_eq!(
        parse("SELECT a FROM b LIMIT 99999999999999999999"),
        Err(Failure::InvalidArgument(b("99999999999999999999")))
    );
    let intent = parse("SELECT a FROM b LIMIT 0 OFFSET 3").unwrap();
    assert_eq!((intent.offset, intent.limit), (Some(3), Some(0)));
}

#[test]
fn statements_are_translated_field_by_field() {
    let select = SqlSelect {
        with: None,
        distinct: None,
        projection: vec![
            SqlSelectItem::Plain(Phrase { expr: SqlExpr::Identifier(b("a")), text: b("a") }),
            SqlSelectItem::Aliased(
                Phrase {
                    expr: SqlExpr::Unary(SqlUnaryOp::Minus, Box::new(SqlExpr::Number(b("4")))),
                    text: b("-4"),
                },
                b("m"),
            ),
        ],
        from: vec![SqlTable {
            relation: SqlRelation::Table(vec![b("t")]),
            alias: None,
            adorned: false,
            joins: 0,
            text: b("t"),
        }],
        selection: Some(SqlExpr::Binary(
            SqlBinaryOp::Other(b("||")),
            Box::new(SqlExpr::Text(b("x"))),
            Box::new(SqlExpr::Null),
        )),
        group_by: None,
        having: None,
        order_by: vec![SqlOrderBy {
            phrase: Phrase { expr: SqlExpr::Identifier(b("a")), text: b("a") },
            ascending: Some(false),
            options: None,
        }],
        limit: None,
        offset: None,
        rest: vec![],
    };
    let mut statements = vec![SqlStatement { body: SqlBody::Select(select), text: b("ignored") }];
    assert_eq!(translate(&statements), Err(Failure::UnsupportedExpression(b("||"))));
    if let SqlBody::Select(s) = &mut statements[0].body {
        s.selection = None;
    }
    let intent = translate(&statements).unwrap();
    assert_eq!(intent.source, b("t"));
    assert_eq!(intent.predicate, None);
    assert_eq!(intent.ordering.len(), 1);
    assert!(intent.ordering[0].descending);
    let result = query(&intent, Some(&b("a\n2\n1\n3\n"))).unwrap();
    assert_eq!(result.to_csv().unwrap(), "a,m\n3,-4\n2,-4\n1,-4\n");
}
