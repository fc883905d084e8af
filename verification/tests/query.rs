use csvpeek_rs::{
    answer, answer_list, answer_sample, describe_condition, parse_csv_from_reader,
    parse_filter_arg, project, row_line, row_lines, sample_row, sample_title, shown_names, title,
    Answer, ColumnRole, Condition, Field, Mode, Operator, Origin, QueryError, Reading, Request, Row,
};

fn names(v: &[&str]) -> Vec<String> {
    v.iter().map(|s| s.to_string()).collect()
}

fn reading(text: &str) -> Reading {
    Reading::of_parsed(csvpeek_rs::number_text(text).parse::<f64>().ok().map(f64::to_bits))
}

fn field(text: &str) -> Field {
    Field::new(text.to_string(), reading(text))
}

fn row(texts: &[&str]) -> Row {
    Row::new(texts.iter().map(|t| field(t)).collect())
}

fn table(text: &str) -> (Vec<String>, Vec<Row>) {
    let (headers, records) = parse_csv_from_reader(text.as_bytes(), true).unwrap();
    let rows = records
        .iter()
        .map(|r| Row::new(r.iter().map(|t| field(t)).collect()))
        .collect();
    (headers, rows)
}

fn condition(text: &str) -> Condition {
    let (column, op, value) = parse_filter_arg(text).unwrap();
    Condition { column, op, value: field(&value) }
}

fn list(filters: Option<Vec<Condition>>, columns: Option<Vec<String>>, raw: bool) -> Request {
    Request { mode: Mode::List, filters, columns, raw }
}

fn file(name: &str) -> Origin {
    Origin::File(name.to_string())
}

#[test]
fn origins_are_named_in_titles() {
    assert_eq!(Origin::Directory(".".to_string()).describe(), "directory '.'");
    assert_eq!(file("data.csv").describe(), "file 'data.csv'");
    assert_eq!(Origin::Stdin.describe(), "stdin");
}

#[test]
fn projection_takes_the_fields_at_the_columns() {
    let r = row(&["A1", "B1", "C1"]);
    assert_eq!(project(&r, &vec![2, 0], "[N/A]"), names(&["C1", "A1"]));
    assert_eq!(project(&r, &vec![1, 1], "[N/A]"), names(&["B1", "B1"]));
    assert_eq!(project(&r, &vec![], "[N/A]"), names(&[]));
}

#[test]
fn a_field_that_is_not_there_shows_as_the_mark() {
    let r = row(&["A1"]);
    assert_eq!(project(&r, &vec![0, 1, 5], "[N/A]"), names(&["A1", "[N/A]", "[N/A]"]));
    assert_eq!(project(&r, &vec![1, 0], ""), names(&["", "A1"]));
    assert_eq!(row_line(&r, &vec![0, 3], "[N/A]"), "A1\t[N/A]");
    assert_eq!(row_line(&r, &vec![3, 0], ""), "\tA1");
}

#[test]
fn lines_join_the_projection_with_tabs() {
    let rows = vec![row(&["Äpple", "10"]), row(&["Päron", "12"])];
    let refs: Vec<&Row> = rows.iter().collect();
    assert_eq!(row_lines(&refs, &vec![0, 1], ""), names(&["Äpple\t10", "Päron\t12"]));
    assert_eq!(row_lines(&refs, &vec![1], ""), names(&["10", "12"]));
    assert_eq!(row_lines(&vec![], &vec![1], ""), names(&[]));
}

#[test]
fn shown_names_are_the_headers_at_the_columns() {
    let headers = names(&["Låt", "Artist", "Album", "År"]);
    assert_eq!(shown_names(&headers, &vec![0, 3]), names(&["Låt", "År"]));
    assert_eq!(shown_names(&headers, &vec![3, 3, 9]), names(&["År", "År", ""]));
}

#[test]
fn conditions_are_written_with_the_value_in_quotes() {
    assert_eq!(describe_condition(&condition("Artist=The Beatles")), "Artist = 'The Beatles'");
    assert_eq!(describe_condition(&condition("  age >=30")), "age >= '30'");
    assert_eq!(describe_condition(&condition("x!=")), "x != ''");
}

#[test]
fn title_names_origin_columns_and_conditions() {
    assert_eq!(
        title(&file("test_data.csv"), &names(&["Name"]), &vec![]),
        "List from file 'test_data.csv' (displaying column(s): Name)"
    );
    assert_eq!(
        title(&Origin::Directory(".".to_string()), &names(&["Titel", "Genre"]), &vec![]),
        "List from directory '.' (displaying column(s): Titel, Genre)"
    );
    assert_eq!(
        title(
            &Origin::Stdin,
            &names(&["Stad", "Land"]),
            &vec![condition("Kontinent=Europa"), condition("Språk=Engelska")]
        ),
        "List from stdin (displaying column(s): Stad, Land) filtered where Kontinent = 'Europa' AND Språk = 'Engelska'"
    );
}

#[test]
fn sample_title_names_columns_origin_and_line() {
    assert_eq!(
        sample_title(&file("single_row_data.csv"), &names(&["Col3", "Col1"]), "C1\tA1"),
        "Random entry (from column(s) 'Col3, Col1' in file 'single_row_data.csv'): C1\tA1"
    );
}

#[test]
fn a_filter_on_a_number_keeps_the_rows_that_reach_it() {
    let (headers, rows) = table("Name,Value\nAlpha,10\nBeta,5\n");
    let request = list(Some(vec![condition("Value>=7")]), None, false);
    assert_eq!(
        answer(&headers, &rows, &request, &file("data.csv")),
        Ok(Answer::Entries {
            title: "List from file 'data.csv' (displaying column(s): Name) filtered where Value >= '7'".to_string(),
            lines: names(&["Alpha"]),
        })
    );
}

#[test]
fn a_list_without_filter_shows_every_row() {
    let (headers, rows) = table("Name,Value,Category\nAlpha,100,X\nBeta,200,Y\nGamma,150,X\n");
    assert_eq!(
        answer(&headers, &rows, &list(None, None, false), &file("test_data.csv")),
        Ok(Answer::Entries {
            title: "List from file 'test_data.csv' (displaying column(s): Name)".to_string(),
            lines: names(&["Alpha", "Beta", "Gamma"]),
        })
    );
}

#[test]
fn a_list_shows_the_requested_columns_of_the_passing_rows() {
    let (headers, rows) = table(
        "Låt,Artist,Album,År\nHey Jude,The Beatles,N/A,1968\nBohemian Rhapsody,Queen,Opera,1975\nYesterday,The Beatles,N/A,1965\n",
    );
    let request = list(Some(vec![condition("Artist=The Beatles")]), Some(names(&["Låt", "År"])), false);
    assert_eq!(
        answer(&headers, &rows, &request, &file("songs.csv")),
        Ok(Answer::Entries {
            title: "List from file 'songs.csv' (displaying column(s): Låt, År) filtered where Artist = 'The Beatles'".to_string(),
            lines: names(&["Hey Jude\t1968", "Yesterday\t1965"]),
        })
    );
}

#[test]
fn the_title_shows_headers_as_stored_and_conditions_as_written() {
    let (headers, rows) = table("Name,Value\nAlpha,10\n");
    let request = list(Some(vec![condition("value < 11")]), Some(names(&["NAME"])), false);
    assert_eq!(
        answer(&headers, &rows, &request, &Origin::Stdin),
        Ok(Answer::Entries {
            title: "List from stdin (displaying column(s): Name) filtered where value < '11'".to_string(),
            lines: names(&["Alpha"]),
        })
    );
}

#[test]
fn several_conditions_must_all_hold() {
    let (headers, rows) = table(
        "Stad,Land,Kontinent,Språk\nStockholm,Sverige,Europa,Svenska\nParis,Frankrike,Europa,Franska\nLondon,UK,Europa,Engelska\nBerlin,Tyskland,Europa,Tyska\nTokyo,Japan,Asien,Japanska\n",
    );
    let request = list(
        Some(vec![condition("Kontinent=Europa"), condition("Språk=Engelska")]),
        Some(names(&["Stad", "Land"])),
        false,
    );
    match answer(&headers, &rows, &request, &file("multi_filter_data.csv")) {
        Ok(Answer::Entries { lines, .. }) => assert_eq!(lines, names(&["London\tUK"])),
        other => panic!("{:?}", other),
    }
}

#[test]
fn a_filter_that_nothing_passes_says_so() {
    let (headers, rows) = table(
        "Stad,Land,Kontinent,Språk\nStockholm,Sverige,Europa,Svenska\nParis,Frankrike,Europa,Franska\n",
    );
    let request = list(Some(vec![condition("Kontinent=Europa"), condition("Språk=Japanska")]), None, false);
    assert_eq!(answer(&headers, &rows, &request, &file("multi_filter_data.csv")), Ok(Answer::NoMatches));
    let raw = list(Some(vec![condition("Språk=Japanska")]), None, true);
    assert_eq!(answer(&headers, &rows, &raw, &file("multi_filter_data.csv")), Ok(Answer::RawLines(vec![])));
}

#[test]
fn an_empty_filter_lists_everything_without_a_filter_text() {
    let (headers, rows) = table("A,B\n1,2\n3,4\n");
    assert_eq!(
        answer(&headers, &rows, &list(Some(vec![]), None, false), &Origin::Stdin),
        Ok(Answer::Entries {
            title: "List from stdin (displaying column(s): A)".to_string(),
            lines: names(&["1", "3"]),
        })
    );
}

#[test]
fn raw_lists_are_lines_only() {
    let (headers, rows) = table("ID,Produkt,Pris,Kategori\n1,Äpple,10,Frukt\n2,Päron,12,Frukt\n3,Morot,8,Grönsak\n");
    let request = list(None, Some(names(&["Produkt", "Pris"])), true);
    assert_eq!(
        answer(&headers, &rows, &request, &file("data.csv")),
        Ok(Answer::RawLines(names(&["Äpple\t10", "Päron\t12", "Morot\t8"])))
    );
    let request = list(Some(vec![condition("Kategori=Frukt")]), Some(names(&["Produkt"])), true);
    assert_eq!(
        answer(&headers, &rows, &request, &file("data.csv")),
        Ok(Answer::RawLines(names(&["Äpple", "Päron"])))
    );
}

#[test]
fn columns_are_shown_in_the_order_asked_for() {
    let (headers, rows) = table("HeaderA,HeaderB,HeaderC\nval1A,val1B,val1C\nval2A,val2B,val2C\n");
    let request = list(None, Some(names(&["HeaderC", "HeaderA"])), true);
    assert_eq!(
        answer(&headers, &rows, &request, &Origin::Stdin),
        Ok(Answer::RawLines(names(&["val1C\tval1A", "val2C\tval2A"])))
    );
}

#[test]
fn an_unknown_display_column_ends_the_query() {
    let (headers, rows) = table("A,B\n1,2\n");
    let expected = Err(QueryError::UnknownColumn {
        name: "Zzz".to_string(),
        role: ColumnRole::Display,
        headers: names(&["A", "B"]),
    });
    assert_eq!(answer(&headers, &rows, &list(None, Some(names(&["Zzz"])), false), &Origin::Stdin), expected);
    let sample = Request { mode: Mode::Sample, filters: None, columns: Some(names(&["Zzz"])), raw: true };
    assert_eq!(answer(&headers, &rows, &sample, &Origin::Stdin), expected);
}

#[test]
fn an_unknown_filter_column_ends_the_query() {
    let (headers, rows) = table("Header1,Header2\nval1,val2\n");
    let request = list(Some(vec![condition("Header1=val1"), condition("NonExistent=foo")]), None, false);
    assert_eq!(
        answer(&headers, &rows, &request, &file("data.csv")),
        Err(QueryError::UnknownColumn {
            name: "NonExistent".to_string(),
            role: ColumnRole::Filter,
            headers: names(&["Header1", "Header2"]),
        })
    );
}

#[test]
fn display_columns_are_looked_up_before_filter_columns() {
    let (headers, rows) = table("A,B\n1,2\n");
    let request = list(Some(vec![condition("X=1")]), Some(names(&["Y"])), false);
    match answer(&headers, &rows, &request, &Origin::Stdin) {
        Err(QueryError::UnknownColumn { name, role, .. }) => {
            assert_eq!(name, "Y");
            assert_eq!(role, ColumnRole::Display);
        },
        other => panic!("{:?}", other),
    }
}

#[test]
fn data_without_rows_is_reported_before_any_column_is_looked_up() {
    let (headers, rows) = table("A,B\n");
    assert!(rows.is_empty());
    let request = list(Some(vec![condition("X=1")]), Some(names(&["Y"])), false);
    assert_eq!(answer(&headers, &rows, &request, &Origin::Stdin), Ok(Answer::NoDataRows));
    let sample = Request { mode: Mode::Sample, filters: None, columns: None, raw: false };
    assert_eq!(answer(&headers, &rows, &sample, &Origin::Stdin), Ok(Answer::NoDataRows));
}

#[test]
fn headers_are_given_back_when_asked_for() {
    let headers = names(&["A", "B"]);
    let request = Request { mode: Mode::Headers, filters: None, columns: None, raw: false };
    assert_eq!(answer(&headers, &vec![], &request, &Origin::Stdin), Ok(Answer::Headers(names(&["A", "B"]))));
    assert_eq!(
        answer(&headers, &vec![row(&["1", "2"])], &request, &Origin::Stdin),
        Ok(Answer::Headers(names(&["A", "B"])))
    );
}

#[test]
fn a_short_row_shows_the_mark_and_fails_the_filter() {
    let headers = names(&["A", "B"]);
    let rows = vec![row(&["1"]), row(&["2", "x"])];
    assert_eq!(
        answer(&headers, &rows, &list(None, Some(names(&["B", "A"])), false), &Origin::Stdin),
        Ok(Answer::Entries {
            title: "List from stdin (displaying column(s): B, A)".to_string(),
            lines: names(&["[N/A]\t1", "x\t2"]),
        })
    );
    assert_eq!(
        answer(&headers, &rows, &list(None, Some(names(&["B", "A"])), true), &Origin::Stdin),
        Ok(Answer::RawLines(names(&["\t1", "x\t2"])))
    );
    assert_eq!(
        answer(&headers, &rows, &list(Some(vec![condition("B!=y")]), None, true), &Origin::Stdin),
        Ok(Answer::RawLines(names(&["2"])))
    );
}

#[test]
fn a_sample_of_one_row_is_that_row() {
    let (headers, rows) = table("Col1,Col2,Col3\nA1,B1,C1\n");
    let raw = Request { mode: Mode::Sample, filters: None, columns: Some(names(&["Col3", "Col1"])), raw: true };
    assert_eq!(answer(&headers, &rows, &raw, &file("single_row_data.csv")), Ok(Answer::Sample("C1\tA1".to_string())));
    let plain = Request { mode: Mode::Sample, filters: None, columns: None, raw: false };
    assert_eq!(
        answer(&headers, &rows, &plain, &file("single_row_data.csv")),
        Ok(Answer::Sample(
            "Random entry (from column(s) 'Col1' in file 'single_row_data.csv'): A1".to_string()
        ))
    );
}

#[test]
fn a_sample_is_one_of_the_rows_whatever_the_filter() {
    let (headers, rows) = table("N\n1\n2\n3\n4\n");
    let request = Request {
        mode: Mode::Sample,
        filters: Some(vec![condition("N>100")]),
        columns: None,
        raw: true,
    };
    let mut seen = [false; 4];
    for _ in 0..400 {
        match answer(&headers, &rows, &request, &Origin::Stdin) {
            Ok(Answer::Sample(text)) => {
                let n: usize = text.parse().unwrap();
                assert!(1 <= n && n <= 4);
                seen[n - 1] = true;
            },
            other => panic!("{:?}", other),
        }
    }
    assert!(seen.iter().all(|s| *s));
}

#[test]
fn sampling_draws_from_the_rows_given() {
    assert_eq!(sample_row(&vec![]), None);
    let one = vec![row(&["only"])];
    assert_eq!(sample_row(&one), Some(&one[0]));
    let many = vec![row(&["a"]), row(&["b"]), row(&["c"])];
    for _ in 0..50 {
        let drawn = sample_row(&many).unwrap();
        assert!(many.iter().any(|r| r == drawn));
    }
}

#[test]
fn answers_can_be_made_from_rows_already_chosen() {
    let headers = names(&["A", "B"]);
    let rows = vec![row(&["1", "2"]), row(&["3", "4"])];
    let kept: Vec<&Row> = vec![&rows[1]];
    assert_eq!(
        answer_list(&headers, &kept, &vec![1], &None, false, &Origin::Stdin),
        Answer::Entries {
            title: "List from stdin (displaying column(s): B)".to_string(),
            lines: names(&["4"]),
        }
    );
    assert_eq!(answer_list(&headers, &vec![], &vec![1], &Some(vec![]), false, &Origin::Stdin), Answer::NoMatches);
    assert_eq!(
        answer_list(&headers, &vec![], &vec![1], &None, false, &Origin::Stdin),
        Answer::Entries {
            title: "List from stdin (displaying column(s): B)".to_string(),
            lines: names(&[]),
        }
    );
    assert_eq!(
        answer_sample(&headers, &rows[0], &vec![1, 0], false, &Origin::Directory("d".to_string())),
        Answer::Sample("Random entry (from column(s) 'B, A' in directory 'd'): 2\t1".to_string())
    );
    assert_eq!(answer_sample(&headers, &rows[0], &vec![1, 0], true, &Origin::Stdin), Answer::Sample("2\t1".to_string()));
}

#[test]
fn operators_of_a_condition_are_kept() {
    let c = condition("Pris<=10");
    assert_eq!(c.column, "Pris");
    assert_eq!(c.op, Operator::LtEq);
    assert_eq!(c.value, field("10"));
}

#[test]
fn a_short_row_that_was_read_shows_the_mark_and_fails_the_filter() {
    let (headers, rows) = table("A,B\n1\n2,x\n3,y,more\n");
    assert_eq!(rows[0].len(), 1);
    assert_eq!(rows[2].len(), 3);
    assert_eq!(
        answer(&headers, &rows, &list(None, Some(names(&["B", "A"])), false), &Origin::Stdin),
        Ok(Answer::Entries {
            title: "List from stdin (displaying column(s): B, A)".to_string(),
            lines: names(&["[N/A]\t1", "x\t2", "y\t3"]),
        })
    );
    assert_eq!(
        answer(&headers, &rows, &list(Some(vec![condition("B!=x")]), None, true), &Origin::Stdin),
        Ok(Answer::RawLines(names(&["3"])))
    );
    assert_eq!(
        answer(&headers, &rows, &list(Some(vec![condition("B=x")]), None, true), &Origin::Stdin),
        Ok(Answer::RawLines(names(&["2"])))
    );
}
