use queryer::engine::{filter, order, project, slice};
use queryer::text::{read_as, read_boolean, read_date, read_number, render_value};
use queryer::{
    execute, query, BinaryOp, Cell, ColumnType, DataSet, Date, Expr, Expression, Failure,
    OutputColumn, Projection, QueryIntent, SortKey, Stage, UnaryOp, Value,
};

fn b(text: &str) -> Vec<u8> {
    text.as_bytes().to_vec()
}

fn column(name: &str) -> Expression {
    Expr::Column(b(name))
}

fn number(n: i64) -> Expression {
    Expr::Literal(Cell::Number(n))
}

fn binary(op: BinaryOp, left: Expression, right: Expression) -> Expression {
    Expr::Binary(op, Box::new(left), Box::new(right))
}

fn named(name: &str) -> OutputColumn {
    OutputColumn { name: b(name), expr: column(name) }
}

fn key(name: &str, descending: bool) -> SortKey {
    SortKey { column: b(name), descending }
}

fn select_all() -> QueryIntent {
    QueryIntent {
        source: b("src"),
        predicate: None,
        projection: Projection::All,
        ordering: vec![],
        offset: None,
        limit: None,
    }
}

fn people() -> Vec<u8> {
    b("name,age\nAnn,30\nBob,25\n")
}

fn text(t: &str) -> Value {
    Cell::Text(b(t))
}

fn staff() -> DataSet {
    DataSet::new(
        vec![b("name"), b("team"), b("age")],
        vec![ColumnType::Text, ColumnType::Text, ColumnType::Numeric],
        vec![
            vec![text("Ann"), text("b"), Cell::Number(30)],
            vec![text("Bob"), text("a"), Cell::Number(25)],
            vec![text("Cid"), text("b"), Cell::Number(25)],
            vec![text("Dee"), text("a"), Cell::Absent],
            vec![text("Eve"), text("a"), Cell::Number(25)],
        ],
    )
    .unwrap()
}

fn names_of(table: &DataSet) -> Vec<String> {
    let mut out = vec![];
    for r in 0..table.height() {
        match table.cell(r, 0).unwrap() {
            Cell::Text(t) => out.push(String::from_utf8(t).unwrap()),
            other => panic!("no text: {:?}", other),
        }
    }
    out
}

#[test]
fn it_works() {
    let result = 2 + 2;
    assert_eq!(result, 4);
}

#[test]
fn selects_name_where_age_above_26() {
    let intent = QueryIntent {
        source: b("src"),
        predicate: Some(binary(BinaryOp::Greater, column("age"), number(26))),
        projection: Projection::Columns(vec![named("name")]),
        ordering: vec![key("name", false)],
        offset: None,
        limit: Some(10),
    };
    let result = query(&intent, Some(&people())).unwrap();
    assert_eq!(result.width(), 1);
    assert_eq!(result.column_name(0), Some(&b("name")));
    assert_eq!(result.column_type(0), Some(ColumnType::Text));
    assert_eq!(result.height(), 1);
    assert_eq!(result.cell(0, 0), Some(text("Ann")));
    assert_eq!(result.to_csv().unwrap(), "name\nAnn\n");
}

#[test]
fn offset_past_the_end_keeps_the_columns() {
    let mut intent = select_all();
    intent.offset = Some(5);
    intent.limit = Some(5);
    let result = query(&intent, Some(&b("name,age\nAnn,30\nBob,25\nCid,41\n"))).unwrap();
    assert_eq!(result.height(), 0);
    assert_eq!(result.column_names(), &vec![b("name"), b("age")]);
    assert_eq!(result.column_types(), &vec![ColumnType::Text, ColumnType::Numeric]);
    assert_eq!(result.to_csv().unwrap(), "name,age\n");
}

#[test]
fn offset_equal_to_the_row_count_gives_no_rows() {
    let mut intent = select_all();
    intent.offset = Some(2);
    let result = query(&intent, Some(&people())).unwrap();
    assert_eq!(result.height(), 0);
    assert_eq!(result.width(), 2);
}

#[test]
fn unknown_column_in_the_projection_is_named() {
    let mut intent = select_all();
    intent.projection = Projection::Columns(vec![named("foo")]);
    let err = query(&intent, Some(&people())).unwrap_err();
    assert_eq!(err, Failure::UnknownColumn { column: b("foo"), stage: Stage::Project });
}

#[test]
fn unknown_column_in_the_filter_and_in_the_ordering() {
    let mut intent = select_all();
    intent.predicate = Some(binary(BinaryOp::Equal, column("nope"), number(1)));
    intent.ordering = vec![key("gone", false)];
    let err = execute(staff(), &intent).unwrap_err();
    assert_eq!(err, Failure::UnknownColumn { column: b("nope"), stage: Stage::Filter });
    intent.predicate = None;
    let err = execute(staff(), &intent).unwrap_err();
    assert_eq!(err, Failure::UnknownColumn { column: b("gone"), stage: Stage::Order });
}

#[test]
fn comparing_text_to_a_number_is_a_type_mismatch() {
    let mut intent = select_all();
    intent.predicate = Some(binary(BinaryOp::Greater, column("name"), number(1)));
    let err = execute(staff(), &intent).unwrap_err();
    assert_eq!(err, Failure::TypeMismatch { stage: Stage::Filter });
    intent.predicate = Some(column("age"));
    let err = execute(staff(), &intent).unwrap_err();
    assert_eq!(err, Failure::TypeMismatch { stage: Stage::Filter });
    intent.predicate = None;
    intent.projection = Projection::Columns(vec![OutputColumn {
        name: b("x"),
        expr: binary(BinaryOp::Add, column("name"), number(1)),
    }]);
    let err = execute(staff(), &intent).unwrap_err();
    assert_eq!(err, Failure::TypeMismatch { stage: Stage::Project });
}

#[test]
fn a_truth_value_widens_to_a_number() {
    let table = DataSet::new(
        vec![b("flag"), b("n")],
        vec![ColumnType::Boolean, ColumnType::Numeric],
        vec![
            vec![Cell::Boolean(true), Cell::Number(1)],
            vec![Cell::Boolean(false), Cell::Number(1)],
        ],
    )
    .unwrap();
    let mut intent = select_all();
    intent.predicate = Some(binary(BinaryOp::Equal, column("flag"), column("n")));
    intent.projection = Projection::Columns(vec![OutputColumn {
        name: b("sum"),
        expr: binary(BinaryOp::Add, column("flag"), column("n")),
    }]);
    let result = execute(table, &intent).unwrap();
    assert_eq!(result.height(), 1);
    assert_eq!(result.cell(0, 0), Some(Cell::Number(2)));
    assert_eq!(result.column_type(0), Some(ColumnType::Numeric));
}

#[test]
fn an_absent_operand_does_not_pass_the_filter() {
    let mut intent = select_all();
    intent.predicate = Some(binary(BinaryOp::LessOrEqual, column("age"), number(30)));
    let result = execute(staff(), &intent).unwrap();
    assert_eq!(names_of(&result), vec!["Ann", "Bob", "Cid", "Eve"]);
    intent.predicate =
        Some(Expr::Unary(UnaryOp::IsAbsent, Box::new(column("age"))));
    let result = execute(staff(), &intent).unwrap();
    assert_eq!(names_of(&result), vec!["Dee"]);
}

#[test]
fn and_is_false_where_one_side_is_false() {
    let absent = binary(BinaryOp::Greater, column("age"), number(0));
    let never = binary(BinaryOp::Equal, column("name"), Expr::Literal(text("nobody")));
    let mut intent = select_all();
    intent.predicate = Some(Expr::Unary(
        UnaryOp::Not,
        Box::new(binary(BinaryOp::And, absent, never)),
    ));
    let result = execute(staff(), &intent).unwrap();
    assert_eq!(result.height(), 5);
}

#[test]
fn ordering_is_stable_and_the_first_key_decides_first() {
    let mut intent = select_all();
    intent.ordering = vec![key("age", false)];
    let result = execute(staff(), &intent).unwrap();
    assert_eq!(names_of(&result), vec!["Dee", "Bob", "Cid", "Eve", "Ann"]);
    intent.ordering = vec![key("team", false), key("age", true)];
    let result = execute(staff(), &intent).unwrap();
    assert_eq!(names_of(&result), vec!["Bob", "Eve", "Dee", "Ann", "Cid"]);
    intent.ordering = vec![key("age", true)];
    let result = execute(staff(), &intent).unwrap();
    assert_eq!(names_of(&result), vec!["Ann", "Bob", "Cid", "Eve", "Dee"]);
}

#[test]
fn the_stages_run_filter_order_slice_project() {
    let intent = QueryIntent {
        source: b("src"),
        predicate: Some(binary(BinaryOp::Equal, column("age"), number(25))),
        projection: Projection::Columns(vec![named("name")]),
        ordering: vec![key("team", false)],
        offset: Some(1),
        limit: Some(1),
    };
    let result = execute(staff(), &intent).unwrap();
    assert_eq!(names_of(&result), vec!["Eve"]);
    let names = vec![b("name"), b("team"), b("age")];
    let rows = staff().rows().iter().map(|r| r.iter().map(|v| queryer::value::copy_value(v)).collect()).collect();
    let filtered = filter(&rows, &names, &intent.predicate);
    let ordered = order(&filtered, &names, &intent.ordering);
    let sliced = slice(ordered, intent.offset, intent.limit);
    let projected = project(sliced, &names, &intent.projection);
    assert_eq!(&projected, result.rows());
}

#[test]
fn a_query_run_twice_gives_the_same_bytes() {
    let mut intent = select_all();
    intent.ordering = vec![key("age", true)];
    let first = query(&intent, Some(&people())).unwrap();
    let second = query(&intent, Some(&people())).unwrap();
    assert_eq!(first, second);
    assert_eq!(first.to_csv_bytes(), second.to_csv_bytes());
}

#[test]
fn a_limit_of_zero_gives_no_rows() {
    let mut intent = select_all();
    intent.limit = Some(0);
    let result = execute(staff(), &intent).unwrap();
    assert_eq!(result.height(), 0);
    assert_eq!(result.width(), 3);
}

#[test]
fn slice_keeps_the_rows_between_offset_and_limit() {
    let mut intent = select_all();
    intent.offset = Some(1);
    intent.limit = Some(3);
    let result = execute(staff(), &intent).unwrap();
    assert_eq!(names_of(&result), vec!["Bob", "Cid", "Dee"]);
    intent.limit = Some(usize::MAX);
    let result = execute(staff(), &intent).unwrap();
    assert_eq!(names_of(&result), vec!["Bob", "Cid", "Dee", "Eve"]);
}

#[test]
fn arithmetic_is_checked_and_division_truncates() {
    let table = DataSet::new(
        vec![b("n")],
        vec![ColumnType::Numeric],
        vec![vec![Cell::Number(-7)], vec![Cell::Number(i64::MAX)], vec![Cell::Number(0)]],
    )
    .unwrap();
    let mut intent = select_all();
    intent.projection = Projection::Columns(vec![
        OutputColumn { name: b("half"), expr: binary(BinaryOp::Divide, column("n"), number(2)) },
        OutputColumn { name: b("rest"), expr: binary(BinaryOp::Remainder, column("n"), number(2)) },
        OutputColumn { name: b("next"), expr: binary(BinaryOp::Add, column("n"), number(1)) },
        OutputColumn { name: b("by0"), expr: binary(BinaryOp::Divide, number(1), column("n")) },
        OutputColumn { name: b("neg"), expr: Expr::Unary(UnaryOp::Negate, Box::new(column("n"))) },
    ]);
    let result = execute(table, &intent).unwrap();
    assert_eq!(result.cell(0, 0), Some(Cell::Number(-3)));
    assert_eq!(result.cell(0, 1), Some(Cell::Number(-1)));
    assert_eq!(result.cell(0, 2), Some(Cell::Number(-6)));
    assert_eq!(result.cell(0, 4), Some(Cell::Number(7)));
    assert_eq!(result.cell(1, 2), Some(Cell::Absent));
    assert_eq!(result.cell(2, 3), Some(Cell::Absent));
    assert_eq!(result.cell(1, 3), Some(Cell::Number(0)));
}

#[test]
fn a_repeated_output_name_is_refused() {
    let mut intent = select_all();
    intent.projection = Projection::Columns(vec![named("name"), named("age"), named("name")]);
    let err = execute(staff(), &intent).unwrap_err();
    assert_eq!(err, Failure::UnsupportedQuery(b("name")));
}

#[test]
fn the_absent_literal_gives_a_text_column_without_values() {
    let mut intent = select_all();
    intent.projection = Projection::Columns(vec![OutputColumn {
        name: b("nothing"),
        expr: Expr::Literal(Cell::Absent),
    }]);
    let result = execute(staff(), &intent).unwrap();
    assert_eq!(result.column_type(0), Some(ColumnType::Text));
    assert_eq!(result.cell(4, 0), Some(Cell::Absent));
}

#[test]
fn a_table_needs_distinct_names_and_rows_that_fit() {
    assert!(DataSet::new(vec![b("a"), b("a")], vec![ColumnType::Text, ColumnType::Text], vec![])
        .is_none());
    assert!(DataSet::new(vec![b("a")], vec![], vec![]).is_none());
    assert!(DataSet::new(vec![b("a")], vec![ColumnType::Text], vec![vec![]]).is_none());
    assert!(DataSet::new(vec![b("a")], vec![ColumnType::Text], vec![vec![Cell::Number(1)]])
        .is_none());
    let bad = Date { year: 2023, month: 2, day: 29 };
    assert!(DataSet::new(vec![b("a")], vec![ColumnType::Temporal], vec![vec![Cell::Temporal(bad)]])
        .is_none());
    let leap = Date { year: 2024, month: 2, day: 29 };
    let table =
        DataSet::new(vec![b("a")], vec![ColumnType::Temporal], vec![vec![Cell::Temporal(leap)]])
            .unwrap();
    assert_eq!(table.cell(0, 0), Some(Cell::Temporal(leap)));
    assert_eq!(table.cell(1, 0), None);
    assert_eq!(table.cell(0, 1), None);
    assert_eq!(table.column_name(1), None);
    assert_eq!(table.column_type(1), None);
}

#[test]
fn numbers_are_read_only_in_plain_decimal() {
    assert_eq!(read_number(&b("0")), Some(0));
    assert_eq!(read_number(&b("30")), Some(30));
    assert_eq!(read_number(&b("-7")), Some(-7));
    assert_eq!(read_number(&b("9223372036854775807")), Some(i64::MAX));
    assert_eq!(read_number(&b("-9223372036854775808")), Some(i64::MIN));
    assert_eq!(read_number(&b("9223372036854775808")), None);
    assert_eq!(read_number(&b("-9223372036854775809")), None);
    assert_eq!(read_number(&b("99999999999999999999999")), None);
    assert_eq!(read_number(&b("007")), None);
    assert_eq!(read_number(&b("-0")), None);
    assert_eq!(read_number(&b("+1")), None);
    assert_eq!(read_number(&b("1.5")), None);
    assert_eq!(read_number(&b("")), None);
    assert_eq!(read_number(&b("-")), None);
    assert_eq!(read_number(&b("12a")), None);
}

#[test]
fn truth_values_and_dates_are_read() {
    assert_eq!(read_boolean(&b("true")), Some(true));
    assert_eq!(read_boolean(&b("false")), Some(false));
    assert_eq!(read_boolean(&b("True")), None);
    assert_eq!(read_date(&b("2024-02-29")), Some(Date { year: 2024, month: 2, day: 29 }));
    assert_eq!(read_date(&b("2023-02-29")), None);
    assert_eq!(read_date(&b("2023-13-01")), None);
    assert_eq!(read_date(&b("2023-1-01")), None);
    assert_eq!(read_date(&b("2023/01/01")), None);
    assert_eq!(read_as(&b("x"), ColumnType::Text), Some(text("x")));
    assert_eq!(read_as(&b("x"), ColumnType::Numeric), None);
}

#[test]
fn values_are_written_by_type() {
    assert_eq!(render_value(&Cell::Absent), b(""));
    assert_eq!(render_value(&Cell::Boolean(true)), b("true"));
    assert_eq!(render_value(&Cell::Boolean(false)), b("false"));
    assert_eq!(render_value(&Cell::Number(0)), b("0"));
    assert_eq!(render_value(&Cell::Number(-1205)), b("-1205"));
    assert_eq!(render_value(&Cell::Number(i64::MIN)), b("-9223372036854775808"));
    assert_eq!(render_value(&text("a b")), b("a b"));
    assert_eq!(render_value(&Cell::Temporal(Date { year: 987, month: 6, day: 5 })), b("0987-06-05"));
}

#[test]
fn a_source_that_gave_nothing_is_unavailable() {
    let err = query(&select_all(), None).unwrap_err();
    assert_eq!(err, Failure::SourceUnavailable(b("src")));
}
