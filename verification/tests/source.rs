use csvpeek_rs::{
    accept_headers, assemble_table, load_data_from_csv, parse_csv_from_reader, FileContent,
    IngestionError,
};

fn names(v: &[&str]) -> Vec<String> {
    v.iter().map(|s| s.to_string()).collect()
}

#[test]
fn first_record_is_the_header_row() {
    let data = b"Name,Value\nAlpha,10\nBeta,5\n";
    assert_eq!(
        parse_csv_from_reader(data, true),
        Ok((names(&["Name", "Value"]), vec![names(&["Alpha", "10"]), names(&["Beta", "5"])]))
    );
}

#[test]
fn without_records_only_the_headers_are_read() {
    let data = b"Name,Value\nAlpha,10\nBeta,5\n";
    assert_eq!(parse_csv_from_reader(data, false), Ok((names(&["Name", "Value"]), vec![])));
}

#[test]
fn headers_alone_give_no_records() {
    assert_eq!(parse_csv_from_reader(b"A,B,C\n", true), Ok((names(&["A", "B", "C"]), vec![])));
    assert_eq!(parse_csv_from_reader(b"A", true), Ok((names(&["A"]), vec![])));
}

#[test]
fn quoted_fields_lose_their_quotes() {
    let data = "Titel,Not\n\"Moby Dick\",\"said \"\"hi\"\", left\"\n\"two\nlines\",x\n".as_bytes();
    assert_eq!(
        parse_csv_from_reader(data, true),
        Ok((
            names(&["Titel", "Not"]),
            vec![names(&["Moby Dick", "said \"hi\", left"]), names(&["two\nlines", "x"])]
        ))
    );
}

#[test]
fn fields_keep_their_white_space_and_their_letters() {
    let data = "Låt, År \nHey Jude , 1968\n".as_bytes();
    assert_eq!(
        parse_csv_from_reader(data, true),
        Ok((names(&["Låt", " År "]), vec![names(&["Hey Jude ", " 1968"])]))
    );
}

#[test]
fn empty_data_has_no_headers() {
    assert_eq!(parse_csv_from_reader(b"", true), Err(IngestionError::MissingHeaders));
    assert_eq!(parse_csv_from_reader(b"", false), Err(IngestionError::MissingHeaders));
    assert_eq!(parse_csv_from_reader(b"\n\n", true), Err(IngestionError::MissingHeaders));
}

#[test]
fn a_record_keeps_the_fields_it_has() {
    let data = b"A,B\n1,2\n3\n4,5,6\n\n7,8\n";
    assert_eq!(
        parse_csv_from_reader(data, true),
        Ok((
            names(&["A", "B"]),
            vec![names(&["1", "2"]), names(&["3"]), names(&["4", "5", "6"]), names(&["7", "8"])]
        ))
    );
    assert_eq!(parse_csv_from_reader(b"A,B\n1\n", true), Ok((names(&["A", "B"]), vec![names(&["1"])])));
    assert_eq!(parse_csv_from_reader(data, false), Ok((names(&["A", "B"]), vec![])));
}

#[test]
fn bytes_that_are_no_text_are_malformed() {
    let bad_header: &[u8] = &[0x41, 0xff, 0x2c, 0x42, 0x0a, 0x31, 0x2c, 0x32, 0x0a];
    assert!(matches!(parse_csv_from_reader(bad_header, true), Err(IngestionError::Malformed(_))));
    assert!(matches!(parse_csv_from_reader(bad_header, false), Err(IngestionError::Malformed(_))));
    let bad_record: &[u8] = &[0x41, 0x2c, 0x42, 0x0a, 0x31, 0x2c, 0xff, 0x0a];
    assert!(matches!(parse_csv_from_reader(bad_record, true), Err(IngestionError::Malformed(_))));
    assert_eq!(parse_csv_from_reader(bad_record, false), Ok((names(&["A", "B"]), vec![])));
}

#[test]
fn header_row_must_have_a_field() {
    assert_eq!(accept_headers(names(&["A"])), Ok(names(&["A"])));
    assert_eq!(accept_headers(names(&["", ""])), Ok(names(&["", ""])));
    assert_eq!(accept_headers(names(&[])), Err(IngestionError::MissingHeaders));
}

#[test]
fn a_source_is_loaded_from_its_bytes() {
    let content = FileContent::Bytes(b"Col1,Col2,Col3\nA1,B1,C1\n".to_vec());
    assert_eq!(
        load_data_from_csv(&content, true),
        Ok((names(&["Col1", "Col2", "Col3"]), vec![names(&["A1", "B1", "C1"])]))
    );
    assert_eq!(load_data_from_csv(&content, false), Ok((names(&["Col1", "Col2", "Col3"]), vec![])));
}

#[test]
fn a_source_that_could_not_be_read_says_why() {
    let content = FileContent::Unreadable("No such file or directory (os error 2)".to_string());
    let expected = Err(IngestionError::Unreadable("No such file or directory (os error 2)".to_string()));
    assert_eq!(load_data_from_csv(&content, true), expected);
    assert_eq!(load_data_from_csv(&content, false), expected);
}

#[test]
fn ingestion_errors_have_a_text() {
    assert_eq!(IngestionError::MissingHeaders.message(), "CSV data is missing headers or is empty.");
    assert_eq!(IngestionError::Unreadable("gone".to_string()).message(), "gone");
    assert_eq!(IngestionError::Malformed("bad".to_string()).message(), "bad");
}

#[test]
fn a_table_is_made_of_headers_and_records() {
    assert_eq!(
        assemble_table(Ok(names(&["A", "B"])), vec![Ok(names(&["1", "2"])), Ok(names(&["3", "4"]))], true),
        Ok((names(&["A", "B"]), vec![names(&["1", "2"]), names(&["3", "4"])]))
    );
    assert_eq!(assemble_table(Ok(names(&["A"])), vec![], true), Ok((names(&["A"]), vec![])));
}

#[test]
fn a_table_without_records_leaves_them_out() {
    assert_eq!(
        assemble_table(Ok(names(&["A", "B"])), vec![Ok(names(&["1", "2"])), Err("bad".to_string())], false),
        Ok((names(&["A", "B"]), vec![]))
    );
}

#[test]
fn the_first_record_that_failed_is_reported() {
    assert_eq!(
        assemble_table(
            Ok(names(&["A"])),
            vec![Ok(names(&["1"])), Err("second".to_string()), Ok(names(&["3"])), Err("fourth".to_string())],
            true
        ),
        Err(IngestionError::Malformed("second".to_string()))
    );
}

#[test]
fn a_header_row_that_failed_is_reported_before_any_record() {
    assert_eq!(
        assemble_table(Err("header".to_string()), vec![Err("record".to_string())], true),
        Err(IngestionError::Malformed("header".to_string()))
    );
    assert_eq!(
        assemble_table(Err("header".to_string()), vec![], false),
        Err(IngestionError::Malformed("header".to_string()))
    );
}

#[test]
fn an_empty_header_row_is_reported_before_any_record() {
    assert_eq!(
        assemble_table(Ok(names(&[])), vec![Err("record".to_string())], true),
        Err(IngestionError::MissingHeaders)
    );
    assert_eq!(assemble_table(Ok(names(&[])), vec![], false), Err(IngestionError::MissingHeaders));
}

#[test]
fn the_parser_reports_the_first_bad_record() {
    let data: &[u8] = &[0x41, 0x0a, 0x31, 0x0a, 0xff, 0x0a, 0x32, 0x0a, 0xfe, 0x0a];
    match parse_csv_from_reader(data, true) {
        Err(IngestionError::Malformed(text)) => {
            assert!(text.contains("record 2"), "{}", text)
        },
        other => panic!("{:?}", other),
    }
}
