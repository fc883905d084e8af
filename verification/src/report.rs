//! Projection of rows to the columns that are shown, and the title that
//! describes a list.

use vstd::prelude::*;
use vstd::string::*;
use crate::columns::{Condition, ConditionView, condition_views};
use crate::filter::referred;
use crate::row::{FieldView, Row};
use crate::text::{join, joined, texts};

verus! {

/// Where the data came from.
#[derive(Debug, Clone, PartialEq, Eq)]
pub enum Origin {
    /// The CSV files of the directory of this name.
    Directory(String),
    /// The file of this name.
    File(String),
    /// Standard input.
    Stdin,
}

impl Origin {
    /// How the origin is named in a title.
    pub open spec fn describe_text(self) -> Seq<char> {
        match self {
            Origin::Directory(name) => "directory '"@ + name@ + "'"@,
            Origin::File(name) => "file '"@ + name@ + "'"@,
            Origin::Stdin => "stdin"@,
        }
    }

    /// How the origin is named in a title.
    pub fn describe(&self) -> (s: String)
        ensures
            s@ == self.describe_text(),
    {
        match self {
            Origin::Directory(name) => {
                let mut s = String::from_str("directory '");
                s.append(name.as_str());
                s.append("'");
                s
            },
            Origin::File(name) => {
                let mut s = String::from_str("file '");
                s.append(name.as_str());
                s.append("'");
                s
            },
            Origin::Stdin => String::from_str("stdin"),
        }
    }
}

/// The positions as mathematical integers.
pub open spec fn positions(columns: Seq<usize>) -> Seq<int> {
    columns.map_values(|c: usize| c as int)
}

/// The texts of a row at the given columns, in the order of the columns.
/// Where the row has no field at a column, `missing` stands for it.
pub open spec fn projected(row: Seq<FieldView>, columns: Seq<int>, missing: Seq<char>) -> Seq<
    Seq<char>,
> {
    columns.map_values(
        |c: int|
            if 0 <= c < row.len() {
                row[c].text
            } else {
                missing
            },
    )
}

/// The line that shows a row: its projection, with a tab between each two
/// texts.
pub open spec fn line_of(row: Seq<FieldView>, columns: Seq<int>, missing: Seq<char>) -> Seq<char> {
    joined(projected(row, columns, missing), "\t"@)
}

/// The lines that show the rows, one for each row and in their order.
pub open spec fn lines_of(rows: Seq<Row>, columns: Seq<int>, missing: Seq<char>) -> Seq<Seq<char>> {
    rows.map_values(|r: Row| line_of(r@, columns, missing))
}

/// The headers at the given columns, in the order of the columns, with
/// the empty text for a column beyond the headers.
pub open spec fn names_at(headers: Seq<Seq<char>>, columns: Seq<int>) -> Seq<Seq<char>> {
    columns.map_values(
        |c: int|
            if 0 <= c < headers.len() {
                headers[c]
            } else {
                Seq::empty()
            },
    )
}

/// How a condition is written in a title: column, operator and the value
/// in quotes.
pub open spec fn condition_text(c: ConditionView) -> Seq<char> {
    c.column + " "@ + c.op.token() + " '"@ + c.value.text + "'"@
}

/// How the conditions are written in a title, in their order.
pub open spec fn condition_texts(conditions: Seq<ConditionView>) -> Seq<Seq<char>> {
    conditions.map_values(|c: ConditionView| condition_text(c))
}

/// The title of a list: where the data came from and which columns are
/// shown, and, where there are conditions, what the rows were filtered by.
pub open spec fn list_title(
    origin: Seq<char>,
    shown: Seq<Seq<char>>,
    conditions: Seq<ConditionView>,
) -> Seq<char> {
    let base = "List from "@ + origin + " (displaying column(s): "@ + joined(shown, ", "@) + ")"@;
    if conditions.len() > 0 {
        base + " filtered where "@ + joined(condition_texts(conditions), " AND "@)
    } else {
        base
    }
}

/// What is said of a sampled row: which columns of which origin it shows,
/// and its line.
pub open spec fn sample_text(origin: Seq<char>, shown: Seq<Seq<char>>, line: Seq<char>) -> Seq<
    char,
> {
    "Random entry (from column(s) '"@ + joined(shown, ", "@) + "' in "@ + origin + "): "@ + line
}

/// The texts of `row` at `columns`, with `missing` where it has no field.
pub fn project(row: &Row, columns: &Vec<usize>, missing: &str) -> (r: Vec<String>)
    ensures
        texts(r@) == projected(row@, positions(columns@), missing@),
{
    let mut r: Vec<String> = Vec::new();
    let mut i: usize = 0;
    while i < columns.len()
        invariant
            i <= columns.len(),
            r@.len() == i,
            forall|j: int|
                0 <= j < i ==> (#[trigger] r@[j])@ == projected(
                    row@,
                    positions(columns@),
                    missing@,
                )[j],
        decreases columns.len() - i,
    {
        let text = match row.get(columns[i]) {
            Some(field) => field.text.clone(),
            None => String::from_str(missing),
        };
        r.push(text);
        i += 1;
    }
    assert(texts(r@) =~= projected(row@, positions(columns@), missing@));
    r
}

/// The line that shows `row`.
pub fn row_line(row: &Row, columns: &Vec<usize>, missing: &str) -> (s: String)
    ensures
        s@ == line_of(row@, positions(columns@), missing@),
{
    let parts = project(row, columns, missing);
    join(&parts, "\t")
}

/// The lines that show `rows`.
pub fn row_lines(rows: &Vec<&Row>, columns: &Vec<usize>, missing: &str) -> (r: Vec<String>)
    ensures
        texts(r@) == lines_of(referred(rows@), positions(columns@), missing@),
{
    let mut r: Vec<String> = Vec::new();
    let mut i: usize = 0;
    while i < rows.len()
        invariant
            i <= rows.len(),
            r@.len() == i,
            forall|j: int|
                0 <= j < i ==> (#[trigger] r@[j])@ == line_of(
                    rows@[j]@,
                    positions(columns@),
                    missing@,
                ),
        decreases rows.len() - i,
    {
        r.push(row_line(rows[i], columns, missing));
        i += 1;
    }
    assert(texts(r@) =~= lines_of(referred(rows@), positions(columns@), missing@));
    r
}

/// The headers at `columns`, with the empty text for a column beyond the
/// headers.
pub fn shown_names(headers: &Vec<String>, columns: &Vec<usize>) -> (r: Vec<String>)
    ensures
        texts(r@) == names_at(texts(headers@), positions(columns@)),
{
    let mut r: Vec<String> = Vec::new();
    let mut i: usize = 0;
    while i < columns.len()
        invariant
            i <= columns.len(),
            r@.len() == i,
            forall|j: int|
                0 <= j < i ==> (#[trigger] r@[j])@ == names_at(
                    texts(headers@),
                    positions(columns@),
                )[j],
        decreases columns.len() - i,
    {
        let name = if columns[i] < headers.len() {
            headers[columns[i]].clone()
        } else {
            String::new()
        };
        r.push(name);
        i += 1;
    }
    assert(texts(r@) =~= names_at(texts(headers@), positions(columns@)));
    r
}

/// How `condition` is written in a title.
pub fn describe_condition(condition: &Condition) -> (s: String)
    ensures
        s@ == condition_text(condition@),
{
    let mut s = condition.column.clone();
    s.append(" ");
    s.append(condition.op.symbol());
    s.append(" '");
    s.append(condition.value.text.as_str());
    s.append("'");
    s
}

/// The title of a list of rows from `origin` that shows the columns named
/// `shown` and was filtered by `conditions`.
pub fn title(origin: &Origin, shown: &Vec<String>, conditions: &Vec<Condition>) -> (s: String)
    ensures
        s@ == list_title(origin.describe_text(), texts(shown@), condition_views(conditions@)),
{
    let mut s = String::from_str("List from ");
    s.append(origin.describe().as_str());
    s.append(" (displaying column(s): ");
    s.append(join(shown, ", ").as_str());
    s.append(")");
    if conditions.len() > 0 {
        let mut parts: Vec<String> = Vec::new();
        let mut i: usize = 0;
        while i < conditions.len()
            invariant
                i <= conditions.len(),
                parts@.len() == i,
                forall|j: int|
                    0 <= j < i ==> (#[trigger] parts@[j])@ == condition_text(conditions@[j]@),
            decreases conditions.len() - i,
        {
            parts.push(describe_condition(&conditions[i]));
            i += 1;
        }
        assert(texts(parts@) =~= condition_texts(condition_views(conditions@)));
        s.append(" filtered where ");
        s.append(join(&parts, " AND ").as_str());
    }
    s
}

/// What is said of a sampled row whose line is `line`.
pub fn sample_title(origin: &Origin, shown: &Vec<String>, line: &str) -> (s: String)
    ensures
        s@ == sample_text(origin.describe_text(), texts(shown@), line@),
{
    let mut s = String::from_str("Random entry (from column(s) '");
    s.append(join(shown, ", ").as_str());
    s.append("' in ");
    s.append(origin.describe().as_str());
    s.append("): ");
    s.append(line);
    s
}

} // verus!
