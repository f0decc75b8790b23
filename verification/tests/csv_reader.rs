use marrow_run::csv::{
    format_row, has_column, parse_cell, parse_records, quote_cell, read_cell, row_count, CsvCell,
    CsvError, CsvScalarOp, CsvTable, MAX_COLUMNS,
};

fn owned(rows: &[&[&str]]) -> Vec<Vec<String>> {
    rows.iter()
        .map(|row| row.iter().map(|cell| cell.to_string()).collect())
        .collect()
}

#[test]
fn reads_records_with_lf_and_crlf() {
    assert_eq!(
        parse_records("a,b\n1,2\r\n3,4").unwrap(),
        owned(&[&["a", "b"], &["1", "2"], &["3", "4"]])
    );
    assert_eq!(parse_records("a,b\n").unwrap(), owned(&[&["a", "b"]]));
    assert_eq!(parse_records("").unwrap(), Vec::<Vec<String>>::new());
    assert_eq!(parse_records("a,").unwrap(), owned(&[&["a", ""]]));
}

#[test]
fn reads_quoted_fields_with_doubled_quotes() {
    assert_eq!(
        parse_records("\"x,y\",\"say \"\"hi\"\"\",\"a\nb\"").unwrap(),
        owned(&[&["x,y", "say \"hi\"", "a\nb"]])
    );
    assert_eq!(parse_records("\"\"").unwrap(), owned(&[&[""]]));
}

#[test]
fn refuses_malformed_text() {
    assert_eq!(parse_records("a\"b"), Err(CsvError::QuoteOutsideField));
    assert_eq!(parse_records("a\rb"), Err(CsvError::CrWithoutLf));
    assert_eq!(parse_records("\"a\"b"), Err(CsvError::TrailingTextAfterQuote));
    assert_eq!(parse_records("\"abc"), Err(CsvError::UnterminatedQuote));
    let wide = vec!["x"; MAX_COLUMNS + 1].join(",");
    assert_eq!(parse_records(&wide), Err(CsvError::RowOrCellTooLarge));
}

#[test]
fn writer_quotes_only_when_needed() {
    assert_eq!(quote_cell("plain"), "plain");
    assert_eq!(quote_cell("a,b"), "\"a,b\"");
    assert_eq!(quote_cell("say \"hi\""), "\"say \"\"hi\"\"\"");
    assert_eq!(quote_cell("line\r\nbreak"), "\"line\r\nbreak\"");
    let cells: Vec<String> = vec!["a".into(), "b,c".into(), "d\"e".into(), "".into()];
    assert_eq!(format_row(&cells), "a,\"b,c\",\"d\"\"e\",");
}

#[test]
fn written_rows_read_back_unchanged() {
    let rows: Vec<Vec<String>> = vec![
        vec!["a".into(), "b".into()],
        vec!["x,y".into(), "\"q\"".into(), "".into()],
        vec!["multi\nline".into(), "cr\r\nlf".into()],
        vec!["".into(), "".into()],
        vec!["é文字".into()],
    ];
    for cells in rows {
        let text = format_row(&cells);
        assert_eq!(parse_records(&text).unwrap(), vec![cells.clone()]);
    }
}

#[test]
fn one_empty_cell_writes_the_empty_text() {
    assert_eq!(format_row(&["".to_string()]), "");
    assert_eq!(parse_records("").unwrap(), Vec::<Vec<String>>::new());
}

#[test]
fn table_checks_header_and_width() {
    assert_eq!(CsvTable::parse("").err(), Some(CsvError::TextEmptyOrTooLarge));
    assert_eq!(CsvTable::parse("a,a\n1,2").err(), Some(CsvError::EmptyOrDuplicateHeader));
    assert_eq!(CsvTable::parse("a,\n1,2").err(), Some(CsvError::EmptyOrDuplicateHeader));
    assert_eq!(CsvTable::parse("a,b\n1").err(), Some(CsvError::RowWidthMismatch));
    assert_eq!(CsvTable::parse("\"\"").err(), Some(CsvError::EmptyOrDuplicateHeader));
    let table = CsvTable::parse("name,age\nann,31\nbob,").unwrap();
    assert_eq!(table.row_count(), 2);
    assert!(table.has_column("age"));
    assert!(!table.has_column("x"));
    assert_eq!(table.cell(0, "name"), Some("ann"));
    assert_eq!(table.cell(1, "age"), Some(""));
    assert_eq!(table.cell(2, "age"), None);
    assert_eq!(table.cell(0, "x"), None);
}

#[test]
fn row_count_and_has_column_read_the_table() {
    assert_eq!(row_count("h\n1\n2\n3"), Ok(3));
    assert_eq!(row_count("h"), Ok(0));
    assert_eq!(has_column("a,b\n1,2", "b"), Ok(true));
    assert_eq!(has_column("a,b\n1,2", "c"), Ok(false));
    assert_eq!(has_column("a\"", "a"), Err(CsvError::QuoteOutsideField));
}

#[test]
fn typed_cell_reads() {
    let text = "s,i,b,d\nhello,-42,true,9.50\n,007,yes,x";
    assert_eq!(
        read_cell(text, CsvScalarOp::String, 0, "s"),
        Ok(CsvCell::Str("hello".into()))
    );
    assert_eq!(read_cell(text, CsvScalarOp::Int, 0, "i"), Ok(CsvCell::Int(-42)));
    assert_eq!(read_cell(text, CsvScalarOp::Bool, 0, "b"), Ok(CsvCell::Bool(true)));
    assert_eq!(
        read_cell(text, CsvScalarOp::Decimal, 0, "d"),
        Ok(CsvCell::Decimal("9.50".into()))
    );
    assert_eq!(read_cell(text, CsvScalarOp::String, 1, "s"), Err(CsvError::CellEmpty));
    assert_eq!(read_cell(text, CsvScalarOp::Int, 1, "i"), Err(CsvError::NotInt));
    assert_eq!(read_cell(text, CsvScalarOp::Bool, 1, "b"), Err(CsvError::NotBool));
    assert_eq!(read_cell(text, CsvScalarOp::Int, 2, "i"), Err(CsvError::CellAbsent));
    assert_eq!(read_cell(text, CsvScalarOp::Int, 0, "zz"), Err(CsvError::CellAbsent));
    assert_eq!(read_cell(text, CsvScalarOp::Int, -1, "i"), Err(CsvError::NegativeRowIndex));
}

#[test]
fn int_cells_need_the_canonical_spelling() {
    assert_eq!(parse_cell(CsvScalarOp::Int, "0"), Ok(CsvCell::Int(0)));
    assert_eq!(parse_cell(CsvScalarOp::Int, "-0"), Err(CsvError::NotInt));
    assert_eq!(parse_cell(CsvScalarOp::Int, "+1"), Err(CsvError::NotInt));
    assert_eq!(parse_cell(CsvScalarOp::Int, "01"), Err(CsvError::NotInt));
    assert_eq!(
        parse_cell(CsvScalarOp::Int, "-9223372036854775808"),
        Ok(CsvCell::Int(i64::MIN))
    );
    assert_eq!(
        parse_cell(CsvScalarOp::Int, "9223372036854775807"),
        Ok(CsvCell::Int(i64::MAX))
    );
    assert_eq!(parse_cell(CsvScalarOp::Int, "9223372036854775808"), Err(CsvError::NotInt));
}

#[test]
fn operation_names_and_messages() {
    assert_eq!(CsvScalarOp::from_name("decimal"), Some(CsvScalarOp::Decimal));
    assert_eq!(CsvScalarOp::from_name("float"), None);
    assert_eq!(CsvError::CrWithoutLf.message(), "CSV uses CR without LF");
    assert_eq!(CsvError::CellAbsent.message(), "CSV cell is absent");
}
