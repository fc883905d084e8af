//! The filter mini-language: one text of the form `COLUMN<OP>VALUE`.

use vstd::prelude::*;
use vstd::string::*;
use crate::operator::Operator;
use crate::text::{
    after_first, before_first, chars_of, is_first_occurrence, lemma_first_occurrence, occurs,
    occurs_at, split_on_first, trim, trimmed,
};

verus! {

/// What can be wrong with a filter text.
#[derive(Debug, Clone, Copy, PartialEq, Eq, Structural)]
pub enum FilterDefect {
    /// No operator stands in the text.
    MissingOperator,
    /// Nothing but white space stands before the operator.
    EmptyColumn,
    /// The column's name holds a character that operators are written with.
    OperatorInColumn,
}

/// The characters that operators are written with.
pub open spec fn is_operator_char(c: char) -> bool {
    c == '<' || c == '>' || c == '=' || c == '!'
}

/// Some character of `s` is one that operators are written with.
pub open spec fn has_operator_char(s: Seq<char>) -> bool {
    exists|i: int| 0 <= i < s.len() && is_operator_char(#[trigger] s[i])
}

/// The operator at which a filter text is cut: the first, in the order
/// `!=`, `>=`, `<=`, `=`, `>`, `<`, that stands anywhere in the text.
pub open spec fn cutting_operator(s: Seq<char>) -> Option<Operator> {
    if occurs(s, Operator::NotEq.token()) {
        Some(Operator::NotEq)
    } else if occurs(s, Operator::GtEq.token()) {
        Some(Operator::GtEq)
    } else if occurs(s, Operator::LtEq.token()) {
        Some(Operator::LtEq)
    } else if occurs(s, Operator::Eq.token()) {
        Some(Operator::Eq)
    } else if occurs(s, Operator::Gt.token()) {
        Some(Operator::Gt)
    } else if occurs(s, Operator::Lt.token()) {
        Some(Operator::Lt)
    } else {
        None
    }
}

/// The column's name as written: what stands before the leftmost
/// occurrence of the cutting operator, without surrounding white space.
pub open spec fn written_column(s: Seq<char>) -> Seq<char>
    recommends
        cutting_operator(s) is Some,
{
    trimmed(before_first(s, cutting_operator(s)->0.token()))
}

/// The value as written: what stands after that occurrence, without
/// surrounding white space.
pub open spec fn written_value(s: Seq<char>) -> Seq<char>
    recommends
        cutting_operator(s) is Some,
{
    trimmed(after_first(s, cutting_operator(s)->0.token()))
}

/// What a filter text means: column, operator and value, or what is wrong
/// with it.
pub open spec fn parsed_filter(s: Seq<char>) -> Result<
    (Seq<char>, Operator, Seq<char>),
    FilterDefect,
> {
    match cutting_operator(s) {
        None => Err(FilterDefect::MissingOperator),
        Some(op) => if written_column(s).len() == 0 {
            Err(FilterDefect::EmptyColumn)
        } else if has_operator_char(written_column(s)) {
            Err(FilterDefect::OperatorInColumn)
        } else {
            Ok((written_column(s), op, written_value(s)))
        },
    }
}

/// How the message on a defect begins: what is wrong, up to the quote
/// that opens the filter text. `column` is the column as written.
pub open spec fn what_is_wrong(defect: FilterDefect, column: Seq<char>) -> Seq<char> {
    match defect {
        FilterDefect::MissingOperator =>
            "Invalid filter format: Operator (e.g., =, !=, >, <, >=, <=) missing or unrecognized in '"@,
        FilterDefect::EmptyColumn => "Invalid filter format: Column name cannot be empty in '"@,
        FilterDefect::OperatorInColumn => "Invalid filter format: Column name '"@ + column
            + "' is malformed (contains operator characters) in filter string '"@,
    }
}

/// The message that reports a defect of a filter text: it says what is
/// wrong, names the text, and ends with the grammar that is expected.
pub open spec fn malformed_message(defect: FilterDefect, text: Seq<char>, column: Seq<char>) -> Seq<
    char,
> {
    what_is_wrong(defect, column) + text + "'. Expected COLUMN<OP>VALUE."@
}

/// Every message on a malformed filter holds the filter text and the
/// expected grammar.
pub proof fn lemma_message_names_text_and_grammar(
    defect: FilterDefect,
    text: Seq<char>,
    column: Seq<char>,
)
    ensures
        occurs(malformed_message(defect, text, column), text),
        occurs(malformed_message(defect, text, column), "COLUMN<OP>VALUE"@),
{
    reveal_strlit("'. Expected COLUMN<OP>VALUE.");
    reveal_strlit("COLUMN<OP>VALUE");
    let head = what_is_wrong(defect, column);
    let tail = "'. Expected COLUMN<OP>VALUE."@;
    let grammar = "COLUMN<OP>VALUE"@;
    let message = malformed_message(defect, text, column);
    let n = head.len() as int;
    let m = text.len() as int;
    assert(message.subrange(n, n + m) =~= text);
    assert(occurs_at(message, text, n));
    assert(tail.subrange(12, 27) =~= grammar);
    assert(message.subrange(n + m + 12, n + m + 27) =~= grammar);
    assert(occurs_at(message, grammar, n + m + 12));
}

/// The message that reports a defect of the filter text `s`.
pub open spec fn defect_message(s: Seq<char>, defect: FilterDefect) -> Seq<char> {
    malformed_message(defect, s, written_column(s))
}

/// Where a token of operator characters stands in a text whose first and
/// last part hold no such character, each of its characters falls into the
/// middle part.
proof fn lemma_token_character_in_the_middle(
    column: Seq<char>,
    middle: Seq<char>,
    value: Seq<char>,
    token: Seq<char>,
    i: int,
    j: int,
)
    requires
        !has_operator_char(column),
        !has_operator_char(value),
        0 <= j < token.len(),
        is_operator_char(token[j]),
        occurs_at(column + middle + value, token, i),
    ensures
        column.len() <= i + j < column.len() + middle.len(),
        middle[i + j - column.len()] == token[j],
{
    let s = column + middle + value;
    let n = column.len() as int;
    let m = middle.len() as int;
    assert(s.subrange(i, i + token.len())[j] == s[i + j]);
    if i + j < n {
        assert(s[i + j] == column[i + j]);
    } else if i + j >= n + m {
        assert(s[i + j] == value[i + j - n - m]);
    } else {
        assert(s[i + j] == middle[i + j - n]);
    }
}

/// A token of operator characters that stands in a text whose first and
/// last part hold no such character stands within the middle part.
proof fn lemma_token_stands_in_the_middle(
    column: Seq<char>,
    middle: Seq<char>,
    value: Seq<char>,
    token: Seq<char>,
    i: int,
)
    requires
        !has_operator_char(column),
        !has_operator_char(value),
        token.len() > 0,
        forall|j: int| 0 <= j < token.len() ==> is_operator_char(#[trigger] token[j]),
        occurs_at(column + middle + value, token, i),
    ensures
        column.len() <= i,
        i + token.len() <= column.len() + middle.len(),
        middle.subrange(i - column.len(), i - column.len() + token.len()) == token,
{
    let n = column.len() as int;
    lemma_token_character_in_the_middle(column, middle, value, token, i, 0);
    lemma_token_character_in_the_middle(column, middle, value, token, i, token.len() - 1);
    let inner = middle.subrange(i - n, i - n + token.len());
    assert forall|j: int| 0 <= j < token.len() implies #[trigger] inner[j] == token[j] by {
        lemma_token_character_in_the_middle(column, middle, value, token, i, j);
    }
    assert(inner =~= token);
}

/// A filter that is written as a column, an operator and a value is read
/// back as these three, where column and value hold none of the characters
/// that operators are written with and no white space around them, and the
/// column is not empty.
pub proof fn lemma_written_filter_is_read_back(column: Seq<char>, op: Operator, value: Seq<char>)
    requires
        column.len() > 0,
        !has_operator_char(column),
        !has_operator_char(value),
        trimmed(column) == column,
        trimmed(value) == value,
    ensures
        parsed_filter(column + op.token() + value) == Ok::<
            (Seq<char>, Operator, Seq<char>),
            FilterDefect,
        >((column, op, value)),
{
    let token = op.token();
    let s = column + token + value;
    let n = column.len() as int;
    assert(s.subrange(n, n + token.len()) =~= token);
    assert(occurs_at(s, token, n));
    assert forall|j: int| 0 <= j < n implies !occurs_at(s, token, j) by {
        if occurs_at(s, token, j) {
            lemma_token_stands_in_the_middle(column, token, value, token, j);
        }
    }
    assert(is_first_occurrence(s, token, n));
    lemma_first_occurrence(s, token, n);
    assert(before_first(s, token) =~= column);
    assert(after_first(s, token) =~= value);
    assert forall|other: Operator| other != op && #[trigger] other.token().len() >= token.len()
        implies !occurs(s, other.token()) by {
        assert forall|i: int| !occurs_at(s, other.token(), i) by {
            if occurs_at(s, other.token(), i) {
                lemma_token_stands_in_the_middle(column, token, value, other.token(), i);
                let inner = token.subrange(i - n, i - n + other.token().len());
                assert(inner == other.token());
                assert(inner[0] == token[i - n]);
                if other.token().len() == 2 {
                    assert(inner[1] == token[i - n + 1]);
                }
            }
        }
    }
    assert(Operator::NotEq.token().len() == 2 && Operator::GtEq.token().len() == 2
        && Operator::LtEq.token().len() == 2);
    assert(Operator::Eq.token().len() == 1 && Operator::Gt.token().len() == 1
        && Operator::Lt.token().len() == 1);
    assert(cutting_operator(s) == Some(op));
}

/// Tells whether a character of `s` is one that operators are written with.
pub fn contains_operator_char(s: &str) -> (r: bool)
    ensures
        r == has_operator_char(s@),
{
    let cs = chars_of(s);
    let mut i: usize = 0;
    while i < cs.len()
        invariant
            cs@ == s@,
            i <= cs.len(),
            forall|j: int| 0 <= j < i ==> !is_operator_char(cs@[j]),
        decreases cs.len() - i,
    {
        let c = cs[i];
        if c == '<' || c == '>' || c == '=' || c == '!' {
            assert(is_operator_char(s@[i as int]));
            return true;
        }
        i += 1;
    }
    false
}

/// Cuts a filter text at its operator.
fn cut_at_operator<'a>(s: &'a str) -> (r: Option<(&'a str, Operator, &'a str)>)
    ensures
        match cutting_operator(s@) {
            Some(op) => r matches Some((k, o, v)) && o == op && k@ == before_first(s@, op.token())
                && v@ == after_first(s@, op.token()),
            None => r is None,
        },
{
    if let Some((k, v)) = split_on_first(s, &Operator::NotEq.token_chars()) {
        Some((k, Operator::NotEq, v))
    } else if let Some((k, v)) = split_on_first(s, &Operator::GtEq.token_chars()) {
        Some((k, Operator::GtEq, v))
    } else if let Some((k, v)) = split_on_first(s, &Operator::LtEq.token_chars()) {
        Some((k, Operator::LtEq, v))
    } else if let Some((k, v)) = split_on_first(s, &Operator::Eq.token_chars()) {
        Some((k, Operator::Eq, v))
    } else if let Some((k, v)) = split_on_first(s, &Operator::Gt.token_chars()) {
        Some((k, Operator::Gt, v))
    } else if let Some((k, v)) = split_on_first(s, &Operator::Lt.token_chars()) {
        Some((k, Operator::Lt, v))
    } else {
        None
    }
}

/// A filter text that cannot be read: what is wrong with it, the text
/// itself, and the column as written where that is what is wrong.
#[derive(Debug, Clone, PartialEq, Eq)]
pub struct MalformedFilterExpression {
    pub defect: FilterDefect,
    /// The filter text as it was given.
    pub text: String,
    /// The column's name where it holds operator characters, else empty.
    pub column: String,
}

impl MalformedFilterExpression {
    /// The error reports the defect of the filter text `s`.
    pub open spec fn reports(self, s: Seq<char>, defect: FilterDefect) -> bool {
        &&& self.defect == defect
        &&& self.text@ == s
        &&& self.column@ == if defect == FilterDefect::OperatorInColumn {
            written_column(s)
        } else {
            Seq::empty()
        }
    }

    /// The message that describes the error.
    pub open spec fn message_text(self) -> Seq<char> {
        malformed_message(self.defect, self.text@, self.column@)
    }

    /// The message that describes the error.
    pub fn message(&self) -> (s: String)
        ensures
            s@ == self.message_text(),
    {
        match self.defect {
            FilterDefect::MissingOperator => {
                let mut message = String::from_str(
                    "Invalid filter format: Operator (e.g., =, !=, >, <, >=, <=) missing or unrecognized in '",
                );
                message.append(self.text.as_str());
                message.append("'. Expected COLUMN<OP>VALUE.");
                message
            },
            FilterDefect::EmptyColumn => {
                let mut message = String::from_str(
                    "Invalid filter format: Column name cannot be empty in '",
                );
                message.append(self.text.as_str());
                message.append("'. Expected COLUMN<OP>VALUE.");
                message
            },
            FilterDefect::OperatorInColumn => {
                let mut message = String::from_str("Invalid filter format: Column name '");
                message.append(self.column.as_str());
                message.append("' is malformed (contains operator characters) in filter string '");
                message.append(self.text.as_str());
                message.append("'. Expected COLUMN<OP>VALUE.");
                message
            },
        }
    }
}

/// Reads one filter text. The operator is the first of `!=`, `>=`, `<=`,
/// `=`, `>`, `<` that stands in the text, and the text is cut at its
/// leftmost occurrence. Column and value lose their surrounding white
/// space; the value may be empty, the column may not, nor may it hold one
/// of the characters `<`, `>`, `=`, `!`.
pub fn parse_filter(s: &str) -> (r: Result<(String, Operator, String), MalformedFilterExpression>)
    ensures
        match parsed_filter(s@) {
            Ok((column, op, value)) => r matches Ok((c, o, v)) && c@ == column && o == op && v@
                == value,
            Err(defect) => r matches Err(error) && error.reports(s@, defect),
        },
{
    let (key_full, op, value_full) = match cut_at_operator(s) {
        Some(cut) => cut,
        None => {
            return Err(
                MalformedFilterExpression {
                    defect: FilterDefect::MissingOperator,
                    text: String::from_str(s),
                    column: String::new(),
                },
            );
        },
    };
    let key = trim(key_full);
    if key.unicode_len() == 0 {
        return Err(
            MalformedFilterExpression {
                defect: FilterDefect::EmptyColumn,
                text: String::from_str(s),
                column: String::new(),
            },
        );
    }
    if contains_operator_char(key) {
        return Err(
            MalformedFilterExpression {
                defect: FilterDefect::OperatorInColumn,
                text: String::from_str(s),
                column: String::from_str(key),
            },
        );
    }
    Ok((String::from_str(key), op, String::from_str(trim(value_full))))
}

/// Reads one filter text as `parse_filter` does, and reports a text that
/// cannot be read by the message that describes what is wrong with it.
pub fn parse_filter_arg(s: &str) -> (r: Result<(String, Operator, String), String>)
    ensures
        match parsed_filter(s@) {
            Ok((column, op, value)) => r matches Ok((c, o, v)) && c@ == column && o == op && v@
                == value,
            Err(defect) => r matches Err(message) && message@ == defect_message(s@, defect),
        },
        r matches Err(message) ==> occurs(message@, s@) && occurs(message@, "COLUMN<OP>VALUE"@),
{
    match parse_filter(s) {
        Ok(parts) => Ok(parts),
        Err(error) => {
            proof {
                lemma_message_names_text_and_grammar(error.defect, s@, written_column(s@));
            }
            Err(error.message())
        },
    }
}

} // verus!
