use csvpeek_rs::{
    find_column, resolve_display_columns, resolve_filters, ColumnRole, Condition, Field, Operator,
    Predicate, QueryError, Reading,
};

fn names(v: &[&str]) -> Vec<String> {
    v.iter().map(|s| s.to_string()).collect()
}

fn condition(column: &str, op: Operator, value: &str) -> Condition {
    Condition { column: column.to_string(), op, value: Field::new(value.to_string(), Reading::Text) }
}

#[test]
fn column_is_found_whatever_the_case_of_its_letters() {
    let headers = names(&["Name", "Value", "Category"]);
    assert_eq!(find_column(&headers, "Name"), Some(0));
    assert_eq!(find_column(&headers, "value"), Some(1));
    assert_eq!(find_column(&headers, "CATEGORY"), Some(2));
    assert_eq!(find_column(&headers, "Val"), None);
    assert_eq!(find_column(&headers, " Value"), None);
    assert_eq!(find_column(&headers, ""), None);
    assert_eq!(find_column(&names(&[]), "Name"), None);
}

#[test]
fn of_several_matching_headers_the_leftmost_counts() {
    let headers = names(&["id", "ID", "Id"]);
    assert_eq!(find_column(&headers, "ID"), Some(0));
    assert_eq!(find_column(&headers, "Id"), Some(0));
}

#[test]
fn non_ascii_letters_keep_their_case() {
    let headers = names(&["Låt", "År"]);
    assert_eq!(find_column(&headers, "låt"), Some(0));
    assert_eq!(find_column(&headers, "LåT"), Some(0));
    assert_eq!(find_column(&headers, "LÅT"), None);
    assert_eq!(find_column(&headers, "år"), None);
}

#[test]
fn without_a_request_the_first_column_is_shown() {
    let headers = names(&["A", "B"]);
    assert_eq!(resolve_display_columns(&headers, &None), Ok(vec![0]));
}

#[test]
fn without_a_request_and_without_headers_nothing_can_be_shown() {
    assert_eq!(resolve_display_columns(&names(&[]), &None), Err(QueryError::NoHeaders));
}

#[test]
fn requested_columns_keep_their_order_and_their_repeats() {
    let headers = names(&["HeaderA", "HeaderB", "HeaderC"]);
    assert_eq!(
        resolve_display_columns(&headers, &Some(names(&["HeaderC", "headera", "HEADERC"]))),
        Ok(vec![2, 0, 2])
    );
}

#[test]
fn unknown_display_column_is_reported_with_all_headers() {
    let headers = names(&["A", "B"]);
    assert_eq!(
        resolve_display_columns(&headers, &Some(names(&["Zzz"]))),
        Err(QueryError::UnknownColumn {
            name: "Zzz".to_string(),
            role: ColumnRole::Display,
            headers: names(&["A", "B"]),
        })
    );
}

#[test]
fn the_first_unknown_display_column_is_the_one_reported() {
    let headers = names(&["A", "B"]);
    assert_eq!(
        resolve_display_columns(&headers, &Some(names(&["b", "X", "a", "Y"]))),
        Err(QueryError::UnknownColumn {
            name: "X".to_string(),
            role: ColumnRole::Display,
            headers: names(&["A", "B"]),
        })
    );
}

#[test]
fn an_empty_request_is_an_error() {
    let headers = names(&["A", "B"]);
    assert_eq!(resolve_display_columns(&headers, &Some(names(&[]))), Err(QueryError::NoDisplayColumns));
}

#[test]
fn conditions_resolve_to_predicates_in_their_order() {
    let headers = names(&["Stad", "Land", "Kontinent"]);
    let conditions = vec![
        condition("kontinent", Operator::Eq, "Europa"),
        condition("STAD", Operator::NotEq, "Paris"),
    ];
    assert_eq!(
        resolve_filters(&headers, &conditions),
        Ok(vec![
            Predicate { column: 2, op: Operator::Eq, value: Field::new("Europa".to_string(), Reading::Text) },
            Predicate { column: 0, op: Operator::NotEq, value: Field::new("Paris".to_string(), Reading::Text) },
        ])
    );
    assert_eq!(resolve_filters(&headers, &vec![]), Ok(vec![]));
}

#[test]
fn conditions_keep_the_reading_of_their_value() {
    let headers = names(&["Value"]);
    let conditions = vec![Condition {
        column: "value".to_string(),
        op: Operator::GtEq,
        value: Field::new("7".to_string(), Reading::Number(5)),
    }];
    assert_eq!(
        resolve_filters(&headers, &conditions),
        Ok(vec![Predicate {
            column: 0,
            op: Operator::GtEq,
            value: Field::new("7".to_string(), Reading::Number(5)),
        }])
    );
}

#[test]
fn unknown_filter_column_is_reported_with_all_headers() {
    let headers = names(&["Header1", "Header2"]);
    let conditions = vec![
        condition("Header1", Operator::Eq, "val1"),
        condition("NonExistent", Operator::Eq, "foo"),
        condition("Other", Operator::Eq, "bar"),
    ];
    assert_eq!(
        resolve_filters(&headers, &conditions),
        Err(QueryError::UnknownColumn {
            name: "NonExistent".to_string(),
            role: ColumnRole::Filter,
            headers: names(&["Header1", "Header2"]),
        })
    );
}

#[test]
fn one_name_gives_one_position_for_display_and_for_filter() {
    let headers = names(&["Name", "Value", "name"]);
    for name in ["NAME", "name", "Value", "vALUE"] {
        let shown = resolve_display_columns(&headers, &Some(names(&[name]))).unwrap();
        let tested = resolve_filters(&headers, &vec![condition(name, Operator::Eq, "x")]).unwrap();
        assert_eq!(shown.len(), 1);
        assert_eq!(tested.len(), 1);
        assert_eq!(shown[0], tested[0].column);
        assert_eq!(Some(shown[0]), find_column(&headers, name));
    }
    assert!(resolve_display_columns(&headers, &Some(names(&["nope"]))).is_err());
    assert!(resolve_filters(&headers, &vec![condition("nope", Operator::Eq, "x")]).is_err());
}
