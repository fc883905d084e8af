use csvpeek_rs::{
    parse_filter, parse_filter_arg, FilterDefect, MalformedFilterExpression, Operator,
};

#[test]
fn test_parse_filter_arg_valid_ops() {
    assert_eq!(parse_filter_arg("Col=Val"), Ok(("Col".to_string(), Operator::Eq, "Val".to_string())));
    assert_eq!(parse_filter_arg("Col!=Val"), Ok(("Col".to_string(), Operator::NotEq, "Val".to_string())));
    assert_eq!(parse_filter_arg("Col>Val"), Ok(("Col".to_string(), Operator::Gt, "Val".to_string())));
    assert_eq!(parse_filter_arg("Col<Val"), Ok(("Col".to_string(), Operator::Lt, "Val".to_string())));
    assert_eq!(parse_filter_arg("Col>=Val"), Ok(("Col".to_string(), Operator::GtEq, "Val".to_string())));
    assert_eq!(parse_filter_arg("Col<=Val"), Ok(("Col".to_string(), Operator::LtEq, "Val".to_string())));
    assert_eq!(parse_filter_arg("  Col  >=  Val  "), Ok(("Col".to_string(), Operator::GtEq, "Val".to_string())));
}

#[test]
fn test_parse_filter_arg_invalid_ops_or_format() {
    assert!(parse_filter_arg("ColVal").is_err());
    assert!(parse_filter_arg("Col<>Val").is_err());
    assert_eq!(parse_filter_arg("Col><Val"), Ok(("Col".to_string(), Operator::Gt, "<Val".to_string())));
}

#[test]
fn test_parse_filter_arg_empty_key_error() {
    let result = parse_filter_arg("=Value");
    assert!(result.is_err());
    if let Err(e) = result {
        assert!(e.contains("Column name cannot be empty"));
    }

    let result_op = parse_filter_arg(">=Value");
    assert!(result_op.is_err());
    if let Err(e) = result_op {
        assert!(e.contains("Column name cannot be empty"));
    }
}

#[test]
fn test_parse_filter_arg_empty_value_is_ok() {
    assert_eq!(parse_filter_arg("Col="), Ok(("Col".to_string(), Operator::Eq, "".to_string())));
    assert_eq!(parse_filter_arg("Col>="), Ok(("Col".to_string(), Operator::GtEq, "".to_string())));
}

#[test]
fn filter_without_operator_is_reported_with_the_text() {
    assert_eq!(
        parse_filter_arg("ColVal"),
        Err("Invalid filter format: Operator (e.g., =, !=, >, <, >=, <=) missing or unrecognized in 'ColVal'. Expected COLUMN<OP>VALUE.".to_string())
    );
    assert!(parse_filter_arg("a!b").is_err());
    assert!(parse_filter_arg("").is_err());
}

#[test]
fn filter_with_empty_column_is_reported_with_the_text() {
    assert_eq!(
        parse_filter_arg("=Value"),
        Err("Invalid filter format: Column name cannot be empty in '=Value'. Expected COLUMN<OP>VALUE.".to_string())
    );
    assert_eq!(
        parse_filter_arg("   <=3"),
        Err("Invalid filter format: Column name cannot be empty in '   <=3'. Expected COLUMN<OP>VALUE.".to_string())
    );
}

#[test]
fn filter_with_operator_characters_in_the_column_is_reported() {
    assert_eq!(
        parse_filter_arg("Col<>Val"),
        Err("Invalid filter format: Column name 'Col<' is malformed (contains operator characters) in filter string 'Col<>Val'. Expected COLUMN<OP>VALUE.".to_string())
    );
    assert_eq!(
        parse_filter_arg("a=b!=c"),
        Err("Invalid filter format: Column name 'a=b' is malformed (contains operator characters) in filter string 'a=b!=c'. Expected COLUMN<OP>VALUE.".to_string())
    );
    assert!(parse_filter_arg("a!>b").is_err());
}

#[test]
fn filter_is_cut_at_the_operator_that_comes_first_in_rank() {
    assert_eq!(parse_filter_arg("a>=b"), Ok(("a".to_string(), Operator::GtEq, "b".to_string())));
    assert_eq!(parse_filter_arg("a<b>=c"), Err("Invalid filter format: Column name 'a<b' is malformed (contains operator characters) in filter string 'a<b>=c'. Expected COLUMN<OP>VALUE.".to_string()));
    assert_eq!(parse_filter_arg("a=b=c"), Ok(("a".to_string(), Operator::Eq, "b=c".to_string())));
    assert_eq!(parse_filter_arg("a<b<=c"), Err("Invalid filter format: Column name 'a<b' is malformed (contains operator characters) in filter string 'a<b<=c'. Expected COLUMN<OP>VALUE.".to_string()));
    assert_eq!(parse_filter_arg("Stad = Malmö "), Ok(("Stad".to_string(), Operator::Eq, "Malmö".to_string())));
    assert_eq!(parse_filter_arg("a<b"), Ok(("a".to_string(), Operator::Lt, "b".to_string())));
    assert_eq!(parse_filter_arg("a==b"), Ok(("a".to_string(), Operator::Eq, "=b".to_string())));
}

#[test]
fn operators_are_written_as_in_a_filter() {
    assert_eq!(Operator::Eq.to_string(), "=");
    assert_eq!(Operator::NotEq.to_string(), "!=");
    assert_eq!(Operator::Lt.to_string(), "<");
    assert_eq!(Operator::Gt.to_string(), ">");
    assert_eq!(Operator::LtEq.to_string(), "<=");
    assert_eq!(Operator::GtEq.to_string(), ">=");
    assert_eq!(Operator::GtEq.symbol(), ">=");
    assert_eq!(Operator::NotEq.token_chars(), vec!['!', '=']);
}

#[test]
fn a_filter_that_is_written_out_is_read_back() {
    let ops = [Operator::Eq, Operator::NotEq, Operator::Lt, Operator::Gt, Operator::LtEq, Operator::GtEq];
    for op in ops {
        for column in ["Col", "a b", "År", "x"] {
            for value in ["", "Val", "x y", "10.5", "-3"] {
                let text = format!("{}{}{}", column, op.symbol(), value);
                assert_eq!(
                    parse_filter_arg(&text),
                    Ok((column.to_string(), op, value.to_string())),
                    "{}",
                    text
                );
                let spaced = format!("  {} {} {}\t", column, op.symbol(), value);
                assert_eq!(
                    parse_filter_arg(&spaced),
                    Ok((column.to_string(), op, value.to_string())),
                    "{}",
                    spaced
                );
            }
        }
    }
}

#[test]
fn a_malformed_filter_says_what_is_wrong() {
    assert_eq!(
        parse_filter("=Value"),
        Err(MalformedFilterExpression {
            defect: FilterDefect::EmptyColumn,
            text: "=Value".to_string(),
            column: "".to_string(),
        })
    );
    assert_eq!(
        parse_filter("ColVal"),
        Err(MalformedFilterExpression {
            defect: FilterDefect::MissingOperator,
            text: "ColVal".to_string(),
            column: "".to_string(),
        })
    );
    assert_eq!(
        parse_filter(" a! = b"),
        Err(MalformedFilterExpression {
            defect: FilterDefect::OperatorInColumn,
            text: " a! = b".to_string(),
            column: "a!".to_string(),
        })
    );
    assert_eq!(parse_filter("Col>=Val"), Ok(("Col".to_string(), Operator::GtEq, "Val".to_string())));
}

#[test]
fn the_message_of_a_malformed_filter_names_the_empty_column() {
    let error = parse_filter("=Value").unwrap_err();
    assert_eq!(
        error.message(),
        "Invalid filter format: Column name cannot be empty in '=Value'. Expected COLUMN<OP>VALUE."
    );
    assert_eq!(Err(error.message()), parse_filter_arg("=Value"));
}

#[test]
fn every_message_names_the_text_and_the_grammar() {
    for text in ["ColVal", "", "=Value", "  >=x", "Col<>Val", "a=b!=c", "a!<b", "!", "x!y"] {
        let message = parse_filter_arg(text).unwrap_err();
        assert!(message.contains(text), "{}", message);
        assert!(message.contains("COLUMN<OP>VALUE"), "{}", message);
        assert_eq!(parse_filter(text).unwrap_err().message(), message);
    }
}
