//! A whole query: from the data and what the caller asks for to what is to
//! be shown.

use vstd::prelude::*;
use crate::columns::{
    condition_views, display_positions, filter_predicates, named_columns,
    names_or_none, requested_names, resolve_display_columns, resolve_filters, ColumnRole,
    Condition, ConditionView, QueryError,
};
use crate::filter::{filter_rows, passing_rows};
use crate::report::{
    lines_of, line_of, list_title, names_at, positions, row_line, row_lines, sample_text,
    sample_title, shown_names, title, Origin,
};
use crate::row::Row;
use crate::select::sample_row;
use crate::text::{copy_names, texts};

verus! {

/// What kind of answer is asked for.
#[derive(Debug, Clone, Copy, PartialEq, Eq, Structural)]
pub enum Mode {
    /// The header list, and nothing of the rows.
    Headers,
    /// All rows that pass the filter.
    List,
    /// One row, drawn at random from all rows. Filters play no part.
    Sample,
}

/// What the caller asks for.
#[derive(Debug, Clone, PartialEq, Eq)]
pub struct Request {
    pub mode: Mode,
    /// The conditions of the filter, if one is given.
    pub filters: Option<Vec<Condition>>,
    /// The names of the columns to show, if any are given.
    pub columns: Option<Vec<String>>,
    /// Only the values are wanted, without titles and counts.
    pub raw: bool,
}

/// What is to be shown.
#[derive(Debug, Clone, PartialEq, Eq)]
pub enum Answer {
    /// The header list.
    Headers(Vec<String>),
    /// The data has no rows.
    NoDataRows,
    /// There are rows, but none passes the filter.
    NoMatches,
    /// The title of the list, and a line for each row of it.
    Entries { title: String, lines: Vec<String> },
    /// A line for each row, and nothing else.
    RawLines(Vec<String>),
    /// What is said of the sampled row.
    Sample(String),
}

/// What an answer is to the contracts.
pub enum AnswerView {
    Headers(Seq<Seq<char>>),
    NoDataRows,
    NoMatches,
    Entries { title: Seq<char>, lines: Seq<Seq<char>> },
    RawLines(Seq<Seq<char>>),
    Sample(Seq<char>),
}

impl View for Answer {
    type V = AnswerView;

    open spec fn view(&self) -> AnswerView {
        match self {
            Answer::Headers(names) => AnswerView::Headers(texts(names@)),
            Answer::NoDataRows => AnswerView::NoDataRows,
            Answer::NoMatches => AnswerView::NoMatches,
            Answer::Entries { title, lines } => AnswerView::Entries {
                title: title@,
                lines: texts(lines@),
            },
            Answer::RawLines(lines) => AnswerView::RawLines(texts(lines@)),
            Answer::Sample(text) => AnswerView::Sample(text@),
        }
    }
}

/// The conditions of a request over texts.
pub open spec fn requested_conditions(filters: Option<Vec<Condition>>) -> Option<
    Seq<ConditionView>,
> {
    match filters {
        Some(conditions) => Some(condition_views(conditions@)),
        None => None,
    }
}

/// What stands for a field that a row does not have: nothing where only
/// the values are wanted, else a mark.
pub open spec fn missing_text(raw: bool) -> Seq<char> {
    if raw {
        ""@
    } else {
        "[N/A]"@
    }
}

/// The answer to a request for a list, where the columns to show are
/// `columns` and the rows that pass the filter are `kept`.
pub open spec fn list_answer(
    headers: Seq<Seq<char>>,
    kept: Seq<Row>,
    columns: Seq<int>,
    conditions: Option<Seq<ConditionView>>,
    raw: bool,
    origin: Seq<char>,
) -> AnswerView {
    let lines = lines_of(kept, columns, missing_text(raw));
    if raw {
        AnswerView::RawLines(lines)
    } else if kept.len() == 0 && conditions is Some {
        AnswerView::NoMatches
    } else {
        AnswerView::Entries {
            title: list_title(
                origin,
                names_at(headers, columns),
                match conditions {
                    Some(cs) => cs,
                    None => Seq::empty(),
                },
            ),
            lines,
        }
    }
}

/// The answer that shows the one row `row`.
pub open spec fn sample_answer(
    headers: Seq<Seq<char>>,
    row: Row,
    columns: Seq<int>,
    raw: bool,
    origin: Seq<char>,
) -> AnswerView {
    let line = line_of(row@, columns, missing_text(raw));
    if raw {
        AnswerView::Sample(line)
    } else {
        AnswerView::Sample(sample_text(origin, names_at(headers, columns), line))
    }
}

/// Answers a request for a list, with the columns and the conditions
/// already looked up and the rows already filtered.
pub fn answer_list(
    headers: &Vec<String>,
    kept: &Vec<&Row>,
    columns: &Vec<usize>,
    conditions: &Option<Vec<Condition>>,
    raw: bool,
    origin: &Origin,
) -> (a: Answer)
    ensures
        a@ == list_answer(
            texts(headers@),
            crate::filter::referred(kept@),
            positions(columns@),
            requested_conditions(*conditions),
            raw,
            origin.describe_text(),
        ),
{
    if raw {
        return Answer::RawLines(row_lines(kept, columns, ""));
    }
    if kept.len() == 0 && conditions.is_some() {
        return Answer::NoMatches;
    }
    let shown = shown_names(headers, columns);
    let lines = row_lines(kept, columns, "[N/A]");
    let title = match conditions {
        Some(cs) => title(origin, &shown, cs),
        None => {
            let none: Vec<Condition> = Vec::new();
            assert(condition_views(none@) =~= Seq::<ConditionView>::empty());
            title(origin, &shown, &none)
        },
    };
    Answer::Entries { title, lines }
}

/// Answers with the one row `row`.
pub fn answer_sample(
    headers: &Vec<String>,
    row: &Row,
    columns: &Vec<usize>,
    raw: bool,
    origin: &Origin,
) -> (a: Answer)
    ensures
        a@ == sample_answer(
            texts(headers@),
            *row,
            positions(columns@),
            raw,
            origin.describe_text(),
        ),
{
    if raw {
        Answer::Sample(row_line(row, columns, ""))
    } else {
        let shown = shown_names(headers, columns);
        let line = row_line(row, columns, "[N/A]");
        Answer::Sample(sample_title(origin, &shown, line.as_str()))
    }
}

/// Answers a request on the data with the given headers and rows.
///
/// A request for the headers gives them back. Any other request on data
/// without rows says so, before a column is looked up. Else the columns to
/// show are looked up, and an unknown one ends the query. A list then
/// looks up the columns of its conditions, which may end the query as
/// well, and shows the rows that pass all of them, in their order; a
/// sample shows one row drawn from all rows, whatever the conditions are.
pub fn answer(headers: &Vec<String>, rows: &Vec<Row>, request: &Request, origin: &Origin) -> (r:
    Result<Answer, QueryError>)
    ensures
        match request.mode {
            Mode::Headers => r matches Ok(a) && a@ == AnswerView::Headers(texts(headers@)),
            _ => if rows@.len() == 0 {
                r matches Ok(a) && a@ == AnswerView::NoDataRows
            } else {
                match display_positions(texts(headers@), requested_names(request.columns)) {
                    Err(defect) => r matches Err(error) && error.reports(
                        defect,
                        names_or_none(requested_names(request.columns)),
                        ColumnRole::Display,
                        texts(headers@),
                    ),
                    Ok(columns) => match request.mode {
                        Mode::Sample => r matches Ok(a) && exists|i: int|
                            0 <= i < rows@.len() && a@ == sample_answer(
                                texts(headers@),
                                #[trigger] rows@[i],
                                columns,
                                request.raw,
                                origin.describe_text(),
                            ),
                        _ => match requested_conditions(request.filters) {
                            None => r matches Ok(a) && a@ == list_answer(
                                texts(headers@),
                                rows@,
                                columns,
                                None,
                                request.raw,
                                origin.describe_text(),
                            ),
                            Some(conditions) => match filter_predicates(
                                texts(headers@),
                                conditions,
                            ) {
                                Err(defect) => r matches Err(error) && error.reports(
                                    defect,
                                    named_columns(conditions),
                                    ColumnRole::Filter,
                                    texts(headers@),
                                ),
                                Ok(predicates) => r matches Ok(a) && a@ == list_answer(
                                    texts(headers@),
                                    passing_rows(rows@, predicates),
                                    columns,
                                    Some(conditions),
                                    request.raw,
                                    origin.describe_text(),
                                ),
                            },
                        },
                    },
                }
            },
        },
{
    match request.mode {
        Mode::Headers => {
            return Ok(Answer::Headers(copy_names(headers)));
        },
        _ => {},
    }
    if rows.len() == 0 {
        return Ok(Answer::NoDataRows);
    }
    let columns = match resolve_display_columns(headers, &request.columns) {
        Ok(columns) => columns,
        Err(error) => {
            return Err(error);
        },
    };
    assert(positions(columns@) == display_positions(
        texts(headers@),
        requested_names(request.columns),
    )->Ok_0);
    match request.mode {
        Mode::Sample => match sample_row(rows) {
            Some(row) => Ok(answer_sample(headers, row, &columns, request.raw, origin)),
            None => Ok(Answer::NoDataRows),
        },
        _ => {
            let kept = match &request.filters {
                Some(conditions) => {
                    let predicates = match resolve_filters(headers, conditions) {
                        Ok(predicates) => predicates,
                        Err(error) => {
                            return Err(error);
                        },
                    };
                    filter_rows(rows, &predicates)
                },
                None => {
                    let none: Vec<crate::filter::Predicate> = Vec::new();
                    filter_rows(rows, &none)
                },
            };
            Ok(answer_list(headers, &kept, &columns, &request.filters, request.raw, origin))
        },
    }
}

} // verus!
