use queryer::csv::{push_field, push_record};
use queryer::decode::decode;
use queryer::dialect::{is_identifier_part, is_identifier_start};
use queryer::load::{build_table, load_delimited, load_structured};
use queryer::nesting::{nests_within, MAX_NESTING};
use queryer::{
    detect_content, load, query, Cell, ColumnType, ContentKind, DataSet, Date, Failure, Person,
    Projection, QueryIntent, Value,
};

fn b(text: &str) -> Vec<u8> {
    text.as_bytes().to_vec()
}

fn text(t: &str) -> Value {
    Cell::Text(b(t))
}

fn fields(items: &[&str]) -> Vec<Vec<u8>> {
    items.iter().map(|t| b(t)).collect()
}

fn select_all() -> QueryIntent {
    QueryIntent {
        source: b("src"),
        predicate: None,
        projection: Projection::All,
        ordering: vec![],
        offset: None,
        limit: None,
    }
}

#[test]
fn a_field_is_quoted_only_where_it_must_be() {
    let mut out = vec![];
    push_field(&b("plain text"), &mut out);
    assert_eq!(out, b("plain text"));
    let mut out = vec![];
    push_field(&b("a,b"), &mut out);
    assert_eq!(out, b("\"a,b\""));
    let mut out = vec![];
    push_field(&b("say \"hi\""), &mut out);
    assert_eq!(out, b("\"say \"\"hi\"\"\""));
    let mut out = vec![];
    push_field(&b("two\nlines"), &mut out);
    assert_eq!(out, b("\"two\nlines\""));
    let mut out = vec![];
    push_field(&b(""), &mut out);
    assert_eq!(out, b(""));
    let mut out = b("x");
    push_record(&fields(&["a", "", "b,c"]), &mut out);
    assert_eq!(out, b("xa,,\"b,c\"\n"));
}

#[test]
fn a_table_without_rows_is_written_as_its_header() {
    let table = DataSet::new(
        vec![b("name"), b("the age")],
        vec![ColumnType::Text, ColumnType::Numeric],
        vec![],
    )
    .unwrap();
    assert_eq!(table.to_csv().unwrap(), "name,the age\n");
}

#[test]
fn a_table_is_written_with_values_by_type() {
    let table = DataSet::new(
        vec![b("who"), b("n"), b("ok"), b("day")],
        vec![ColumnType::Text, ColumnType::Numeric, ColumnType::Boolean, ColumnType::Temporal],
        vec![
            vec![
                text("Ann, \"A\""),
                Cell::Number(-30),
                Cell::Boolean(true),
                Cell::Temporal(Date { year: 2024, month: 1, day: 9 }),
            ],
            vec![Cell::Absent, Cell::Absent, Cell::Absent, Cell::Absent],
        ],
    )
    .unwrap();
    assert_eq!(
        table.to_csv().unwrap(),
        "who,n,ok,day\n\"Ann, \"\"A\"\"\",-30,true,2024-01-09\n,,,\n"
    );
}

#[test]
fn bytes_that_are_no_text_fail_with_an_encoding_error() {
    let table = DataSet::new(
        vec![b("raw")],
        vec![ColumnType::Text],
        vec![vec![Cell::Text(vec![0xff, 0xfe])]],
    )
    .unwrap();
    assert_eq!(table.to_csv(), Err(Failure::Encoding));
    assert_eq!(table.to_csv_bytes(), vec![b'r', b'a', b'w', b'\n', 0xff, 0xfe, b'\n']);
    let fine = DataSet::new(
        vec![b("raw")],
        vec![ColumnType::Text],
        vec![vec![Cell::Text("héllo".as_bytes().to_vec())]],
    )
    .unwrap();
    assert_eq!(fine.to_csv().unwrap(), "raw\nhéllo\n");
}

#[test]
fn delimited_text_is_read_into_records() {
    assert_eq!(decode(&b("")), Ok(vec![]));
    assert_eq!(decode(&b("a,b\n1,2\n")), Ok(vec![fields(&["a", "b"]), fields(&["1", "2"])]));
    assert_eq!(decode(&b("a,b\r\n1,2")), Ok(vec![fields(&["a", "b"]), fields(&["1", "2"])]));
    assert_eq!(decode(&b("\"a,b\",\"say \"\"hi\"\"\"\n")), Ok(vec![fields(&["a,b", "say \"hi\""])]));
    assert_eq!(decode(&b("\"two\nlines\",x\n")), Ok(vec![fields(&["two\nlines", "x"])]));
    assert_eq!(decode(&b("a,\n\n")), Ok(vec![fields(&["a", ""]), fields(&[""])]));
    assert_eq!(decode(&b("a\nb\"c\n")), Err(1));
    assert_eq!(decode(&b("a\n\"b\"c\n")), Err(1));
    assert_eq!(decode(&b("\"open\n")), Err(0));
}

#[test]
fn column_types_are_the_narrowest_that_fit() {
    let table = load_delimited(
        &b("src"),
        &b("flag,n,day,mixed,none,word\ntrue,1,2024-01-09,1,,x\nfalse,-2,,true,,\n,30,2023-12-31,,,007\n"),
    )
    .unwrap();
    assert_eq!(
        table.column_types(),
        &vec![
            ColumnType::Boolean,
            ColumnType::Numeric,
            ColumnType::Temporal,
            ColumnType::Text,
            ColumnType::Text,
            ColumnType::Text
        ]
    );
    assert_eq!(table.height(), 3);
    assert_eq!(table.cell(0, 0), Some(Cell::Boolean(true)));
    assert_eq!(table.cell(2, 0), Some(Cell::Absent));
    assert_eq!(table.cell(1, 1), Some(Cell::Number(-2)));
    assert_eq!(table.cell(0, 2), Some(Cell::Temporal(Date { year: 2024, month: 1, day: 9 })));
    assert_eq!(table.cell(1, 2), Some(Cell::Absent));
    assert_eq!(table.cell(0, 3), Some(text("1")));
    assert_eq!(table.cell(1, 3), Some(text("true")));
    assert_eq!(table.cell(0, 4), Some(Cell::Absent));
    assert_eq!(table.cell(2, 5), Some(text("007")));
}

#[test]
fn uneven_rows_fail_with_the_source_and_the_row() {
    let err = load_delimited(&b("people.csv"), &b("a,b\n1,2\n3\n4,5\n")).unwrap_err();
    assert_eq!(err, Failure::Load { source: b("people.csv"), row: Some(1) });
    let err = load_delimited(&b("s"), &b("a,a\n1,2\n")).unwrap_err();
    assert_eq!(err, Failure::Load { source: b("s"), row: None });
    let err = load_delimited(&b("s"), &b("")).unwrap_err();
    assert_eq!(err, Failure::Load { source: b("s"), row: None });
    let err = load_delimited(&b("s"), &b("a\n1\n\"2\n")).unwrap_err();
    assert_eq!(err, Failure::Load { source: b("s"), row: Some(1) });
    let err = load_delimited(&b("s"), &b("a\"\n1\n")).unwrap_err();
    assert_eq!(err, Failure::Load { source: b("s"), row: None });
    assert_eq!(build_table(&vec![]).unwrap_err(), None);
    assert_eq!(build_table(&vec![fields(&["a"]), fields(&["1", "2"])]).unwrap_err(), Some(0));
}

#[test]
fn the_kind_of_a_content_is_found_by_its_first_byte() {
    assert_eq!(detect_content(&b("name,age\n")), Some(ContentKind::DelimitedText));
    assert_eq!(detect_content(&b("  \n\t[{\"a\":1}]")), Some(ContentKind::StructuredRecord));
    assert_eq!(detect_content(&b("{\"a\":1}")), Some(ContentKind::StructuredRecord));
    assert_eq!(detect_content(&b("")), None);
    assert_eq!(detect_content(&b(" \r\n\t ")), None);
    assert_eq!(detect_content(&vec![0u8, 1, 2]), None);
    let err = load(&b("blank"), &b("  \n")).unwrap_err();
    assert_eq!(err, Failure::UnrecognizedFormat(b("blank")));
}

#[test]
fn a_written_table_is_loaded_back() {
    let table = DataSet::new(
        vec![b("who, really"), b("n"), b("ok"), b("day"), b("note")],
        vec![
            ColumnType::Text,
            ColumnType::Numeric,
            ColumnType::Boolean,
            ColumnType::Temporal,
            ColumnType::Text,
        ],
        vec![
            vec![
                text("Ann \"A\""),
                Cell::Number(-30),
                Cell::Boolean(true),
                Cell::Temporal(Date { year: 2024, month: 1, day: 9 }),
                text("two\nlines"),
            ],
            vec![text("Bob"), Cell::Absent, Cell::Boolean(false), Cell::Absent, text("12")],
            vec![text(""), Cell::Number(7), Cell::Absent, Cell::Absent, text("x,y")],
        ],
    )
    .unwrap();
    let written = table.to_csv_bytes();
    let back = load_delimited(&b("again"), &written).unwrap();
    assert_eq!(back.column_names(), table.column_names());
    assert_eq!(back.column_types(), table.column_types());
    assert_eq!(back.height(), 3);
    assert_eq!(back.cell(0, 0), Some(text("Ann \"A\"")));
    assert_eq!(back.cell(0, 4), Some(text("two\nlines")));
    assert_eq!(back.cell(1, 1), Some(Cell::Absent));
    assert_eq!(back.cell(2, 0), Some(Cell::Absent));
    assert_eq!(back.cell(2, 4), Some(text("x,y")));
    assert_eq!(back.to_csv_bytes(), written);
    let only_numbers = DataSet::new(vec![b("t")], vec![ColumnType::Text], vec![vec![text("12")]])
        .unwrap();
    let back = load_delimited(&b("again"), &only_numbers.to_csv_bytes()).unwrap();
    assert_eq!(back.column_types(), &vec![ColumnType::Numeric]);
    assert_eq!(back.cell(0, 0), Some(Cell::Number(12)));
    assert_eq!(back.to_csv_bytes(), only_numbers.to_csv_bytes());
}

#[test]
fn structured_records_are_loaded_through_the_data_frame() {
    let content = b("[{\"name\":\"Ann\",\"age\":30,\"ok\":true},{\"name\":\"Bob\",\"age\":25,\"ok\":null}]");
    let table = load(&b("people.json"), &content).unwrap();
    assert_eq!(table.column_names(), &vec![b("name"), b("age"), b("ok")]);
    assert_eq!(
        table.column_types(),
        &vec![ColumnType::Text, ColumnType::Numeric, ColumnType::Boolean]
    );
    assert_eq!(table.height(), 2);
    assert_eq!(table.cell(0, 0), Some(text("Ann")));
    assert_eq!(table.cell(1, 1), Some(Cell::Number(25)));
    assert_eq!(table.cell(0, 2), Some(Cell::Boolean(true)));
    assert_eq!(table.cell(1, 2), Some(Cell::Absent));
    let result = query(&select_all(), Some(&content)).unwrap();
    assert_eq!(result.to_csv().unwrap(), "name,age,ok\nAnn,30,true\nBob,25,\n");
}

#[test]
fn bytes_that_open_like_packed_data_are_not_read_as_records() {
    for bytes in [
        vec![31u8, 139, 8, 0],
        vec![0x78, 0x9c, 1, 2, 3],
        vec![0x28, 0xb5, 0x2f, 0xfd, 0],
        vec![0xef, 0xbb, 0xbf, b'[', b']'],
        b("a,b\n1,2\n"),
        vec![],
    ] {
        let err = load_structured(&b("packed"), &bytes).unwrap_err();
        assert_eq!(err, Failure::Load { source: b("packed"), row: None });
    }
}

#[test]
fn whole_numbers_beyond_64_bits_fail_to_load() {
    let err = load(&b("big.json"), &b("[{\"a\":18446744073709551615}]")).unwrap_err();
    assert_eq!(err, Failure::Load { source: b("big.json"), row: Some(0) });
    let err = load(&b("big.json"), &b("[{\"a\":1},{\"a\":9223372036854775808}]")).unwrap_err();
    assert_eq!(err, Failure::Load { source: b("big.json"), row: Some(0) });
    let err =
        load(&b("big.json"), &b("[{\"a\":-170141183460469231731687303715884105728}]")).unwrap_err();
    assert!(matches!(err, Failure::Load { .. }));
    let err = load(&b("big.json"), &b("{\"a\":123456789012345678901234567890123456789012}"))
        .unwrap_err();
    assert!(matches!(err, Failure::Load { .. }));
    let table = load(&b("fine.json"), &b("[{\"a\":9223372036854775807}]")).unwrap();
    assert_eq!(table.cell(0, 0), Some(Cell::Number(i64::MAX)));
}

#[test]
fn structured_records_of_odd_shapes_load_or_fail_but_return() {
    for content in [
        "[]",
        "{}",
        "[{}]",
        "[1,2]",
        "[[1]]",
        "[{\"a\":1},2]",
        "[{\"a\":[1,2]},{\"a\":3}]",
        "[{\"a\":{\"b\":1}},{\"a\":null}]",
        "[{\"a\":1},{\"b\":\"x\"}]",
        "[{\"a\":1},{\"a\":\"x\"}]",
        "[{\"a\":1},{\"a\":true}]",
        "[{\"a\":null}]",
        "{\"a\":1}",
        "[{\"a\":1,\"a\":2}]",
        "[",
        "{\"a\"",
    ] {
        match load(&b("odd.json"), &b(content)) {
            Ok(table) => assert!(table.is_well_formed()),
            Err(err) => assert!(matches!(err, Failure::Load { .. })),
        }
    }
}

#[test]
fn structured_records_that_cannot_be_held_fail_to_load() {
    let err = load_structured(&b("bad.json"), &b("[{\"a\": ")).unwrap_err();
    assert_eq!(err, Failure::Load { source: b("bad.json"), row: None });
    let err = load(&b("f.json"), &b("[{\"a\":1},{\"a\":2.5}]")).unwrap_err();
    assert_eq!(err, Failure::Load { source: b("f.json"), row: Some(0) });
}

#[test]
fn a_person_has_a_name_and_a_nickname() {
    let mut jack = Person::new("jack");
    assert_eq!(jack.name, "jack");
    assert_eq!(jack.name(), "jack");
    assert_eq!(jack.nickname(), "");
    jack.set_nickname("baby");
    assert_eq!(jack.nickname(), "baby");
    assert_eq!(jack.name, "jack");
    jack.set_nickname("jj");
    assert_eq!(jack.nickname(), "jj");
}

#[test]
fn names_start_with_a_letter_and_go_on_with_signs_of_an_address() {
    assert!(is_identifier_start('a'));
    assert!(is_identifier_start('Z'));
    assert!(is_identifier_start('_'));
    assert!(!is_identifier_start('1'));
    assert!(!is_identifier_start('/'));
    assert!(!is_identifier_start('é'));
    for ch in "azAZ09:/?&=-_.".chars() {
        assert!(is_identifier_part(ch));
    }
    for ch in " ,;*()'\"+<>é".chars() {
        assert!(!is_identifier_part(ch));
    }
}

#[test]
fn a_written_table_whose_first_name_opens_with_a_bracket_is_not_found_to_be_delimited() {
    let table =
        DataSet::new(vec![b("[x]"), b("y")], vec![ColumnType::Text, ColumnType::Text], vec![
            vec![text("1"), text("2")],
        ])
        .unwrap();
    let written = table.to_csv_bytes();
    let back = load_delimited(&b("s"), &written).unwrap();
    assert_eq!(back.column_names(), table.column_names());
    assert_eq!(detect_content(&written), Some(ContentKind::StructuredRecord));
    assert_eq!(load(&b("s"), &written), Err(Failure::Load { source: b("s"), row: None }));
}

#[test]
fn records_nested_too_deep_are_not_read() {
    let mut bytes = vec![b'['; 300000];
    bytes.extend(vec![b']'; 300000]);
    assert_eq!(load(&b("deep"), &bytes), Err(Failure::Load { source: b("deep"), row: None }));
    let mut bytes = Vec::new();
    for _ in 0..100000 {
        bytes.extend_from_slice(b"{\"a\":");
    }
    bytes.push(b'1');
    bytes.extend(vec![b'}'; 100000]);
    assert_eq!(load(&b("deep"), &bytes), Err(Failure::Load { source: b("deep"), row: None }));
    assert!(nests_within(&b("[{\"a\":\"[[[[\\\"[[[\"},{\"a\":[1,[2]]}]"), 4));
    assert!(!nests_within(&b("[{\"a\":[1,[2]]}]"), 3));
    assert!(nests_within(&b(""), 0));
    let mut nested = vec![b'['; 64];
    nested.extend_from_slice(b"{\"a\":1}");
    nested.extend(vec![b']'; 64]);
    assert!(!nests_within(&nested, MAX_NESTING));
    assert!(nests_within(&nested[1..nested.len() - 1].to_vec(), MAX_NESTING));
    assert!(load(&b("edge"), &nested[1..nested.len() - 1].to_vec()).is_err());
    let wide = b("[{\"a\":[[[[1]]]]},{\"a\":null}]");
    assert!(matches!(load(&b("wide"), &wide), Err(Failure::Load { row: Some(0), .. })));
}
