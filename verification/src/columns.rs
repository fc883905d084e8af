//! The column resolver: from the names a caller writes to positions in the
//! header list.

use vstd::prelude::*;
use crate::filter::{Predicate, PredicateView};
use crate::operator::Operator;
use crate::row::{Field, FieldView};
use crate::text::{copy_names, eq_ignore_ascii_case, eq_ignore_case, texts};

verus! {

/// What a column was asked for.
#[derive(Debug, Clone, Copy, PartialEq, Eq, Structural)]
pub enum ColumnRole {
    /// It is to be shown.
    Display,
    /// A filter tests it.
    Filter,
}

/// Why a request for columns cannot be met.
#[derive(Debug, Clone, PartialEq, Eq)]
pub enum QueryError {
    /// No header matches `name`. `headers` is the whole header list.
    UnknownColumn { name: String, role: ColumnRole, headers: Vec<String> },
    /// A list of display columns was given, and it is empty.
    NoDisplayColumns,
    /// No display column was named, and there is no first header to show.
    NoHeaders,
}

/// One clause of a filter as the caller wrote it, with the column named.
#[derive(Debug, Clone, PartialEq, Eq)]
pub struct Condition {
    pub column: String,
    pub op: Operator,
    pub value: Field,
}

/// What a condition is to the contracts.
pub struct ConditionView {
    pub column: Seq<char>,
    pub op: Operator,
    pub value: FieldView,
}

impl View for Condition {
    type V = ConditionView;

    open spec fn view(&self) -> ConditionView {
        ConditionView { column: self.column@, op: self.op, value: self.value@ }
    }
}

/// The views of the conditions, in order.
pub open spec fn condition_views(conditions: Seq<Condition>) -> Seq<ConditionView> {
    conditions.map_values(|c: Condition| c@)
}

/// The columns that the conditions name, in order.
pub open spec fn named_columns(conditions: Seq<ConditionView>) -> Seq<Seq<char>> {
    conditions.map_values(|c: ConditionView| c.column)
}

/// The header at `i` is `name`, but for the case of ASCII letters.
pub open spec fn matches_at(headers: Seq<Seq<char>>, name: Seq<char>, i: int) -> bool {
    0 <= i < headers.len() && eq_ignore_case(headers[i], name)
}

/// `i` is the leftmost header that matches `name`.
pub open spec fn is_first_match(headers: Seq<Seq<char>>, name: Seq<char>, i: int) -> bool {
    matches_at(headers, name, i) && forall|j: int| 0 <= j < i ==> !matches_at(headers, name, j)
}

/// The position that `name` resolves to: that of the leftmost header that
/// is the same text but for the case of ASCII letters.
pub open spec fn column_of(headers: Seq<Seq<char>>, name: Seq<char>) -> Option<int> {
    if exists|i: int| matches_at(headers, name, i) {
        Some(choose|i: int| is_first_match(headers, name, i))
    } else {
        None
    }
}

/// `k` is the first of `names` that no header matches.
pub open spec fn is_first_unknown(headers: Seq<Seq<char>>, names: Seq<Seq<char>>, k: int) -> bool {
    &&& 0 <= k < names.len()
    &&& column_of(headers, names[k]) is None
    &&& forall|j: int| 0 <= j < k ==> column_of(headers, #[trigger] names[j]) is Some
}

/// The first of `names` that no header matches, if there is one.
pub open spec fn first_unknown(headers: Seq<Seq<char>>, names: Seq<Seq<char>>) -> Option<int> {
    if exists|k: int| is_first_unknown(headers, names, k) {
        Some(choose|k: int| is_first_unknown(headers, names, k))
    } else {
        None
    }
}

/// The positions of `names`, one for each name and in the order of the
/// names, where every name is known.
pub open spec fn positions_of(headers: Seq<Seq<char>>, names: Seq<Seq<char>>) -> Seq<int> {
    names.map_values(|n: Seq<char>| column_of(headers, n).unwrap())
}

/// What is wrong with a request for columns.
pub enum ColumnDefect {
    /// The name at this place in the request matches no header.
    Unknown(int),
    /// The list of display columns is empty.
    NoneRequested,
    /// There is no header.
    NoHeaders,
}

impl QueryError {
    /// The error reports `defect`, found when `names` were looked up among
    /// `headers` for the given role: an unknown column with its name as it
    /// was asked for and with the whole header list.
    pub open spec fn reports(
        self,
        defect: ColumnDefect,
        names: Seq<Seq<char>>,
        role: ColumnRole,
        headers: Seq<Seq<char>>,
    ) -> bool {
        match defect {
            ColumnDefect::Unknown(k) => self matches QueryError::UnknownColumn {
                name,
                role: r,
                headers: known,
            } && name@ == names[k] && r == role && texts(known@) == headers,
            ColumnDefect::NoneRequested => self == QueryError::NoDisplayColumns,
            ColumnDefect::NoHeaders => self == QueryError::NoHeaders,
        }
    }
}

/// The view of an optional list of names.
pub open spec fn requested_names(requested: Option<Vec<String>>) -> Option<Seq<Seq<char>>> {
    match requested {
        Some(names) => Some(texts(names@)),
        None => None,
    }
}

/// The names of a request, or none where nothing is asked for.
pub open spec fn names_or_none(requested: Option<Seq<Seq<char>>>) -> Seq<Seq<char>> {
    match requested {
        Some(names) => names,
        None => Seq::empty(),
    }
}

/// The columns to show. Where none is asked for that is the first column;
/// else the position of each name that is asked for, in the order of the
/// request, a name that occurs twice giving its position twice.
pub open spec fn display_positions(
    headers: Seq<Seq<char>>,
    requested: Option<Seq<Seq<char>>>,
) -> Result<Seq<int>, ColumnDefect> {
    match requested {
        None => if headers.len() > 0 {
            Ok(seq![0int])
        } else {
            Err(ColumnDefect::NoHeaders)
        },
        Some(names) => match first_unknown(headers, names) {
            Some(k) => Err(ColumnDefect::Unknown(k)),
            None => if names.len() == 0 {
                Err(ColumnDefect::NoneRequested)
            } else {
                Ok(positions_of(headers, names))
            },
        },
    }
}

/// The predicates that the conditions resolve to: each condition with the
/// position of its column in place of the name.
pub open spec fn filter_predicates(
    headers: Seq<Seq<char>>,
    conditions: Seq<ConditionView>,
) -> Result<Seq<PredicateView>, ColumnDefect> {
    match first_unknown(headers, named_columns(conditions)) {
        Some(k) => Err(ColumnDefect::Unknown(k)),
        None => Ok(
            conditions.map_values(
                |c: ConditionView|
                    PredicateView {
                        column: column_of(headers, c.column).unwrap(),
                        op: c.op,
                        value: c.value,
                    },
            ),
        ),
    }
}

/// The leftmost match is the position a name resolves to.
pub proof fn lemma_column_of(headers: Seq<Seq<char>>, name: Seq<char>, i: int)
    requires
        is_first_match(headers, name, i),
    ensures
        column_of(headers, name) == Some(i),
{
    let j = choose|j: int| is_first_match(headers, name, j);
    assert(is_first_match(headers, name, j));
    if j < i {
        assert(!matches_at(headers, name, j));
    }
    if i < j {
        assert(!matches_at(headers, name, i));
    }
}

/// The first unknown name is the one that resolution stops at.
pub proof fn lemma_first_unknown(headers: Seq<Seq<char>>, names: Seq<Seq<char>>, k: int)
    requires
        is_first_unknown(headers, names, k),
    ensures
        first_unknown(headers, names) == Some(k),
{
    let j = choose|j: int| is_first_unknown(headers, names, j);
    assert(is_first_unknown(headers, names, j));
    if j < k {
        assert(column_of(headers, names[j]) is Some);
    }
    if k < j {
        assert(column_of(headers, names[k]) is Some);
    }
}

/// One name resolves to the same position whether it is asked for as a
/// display column or as the column of a filter, and is unknown to both or
/// to neither.
pub proof fn lemma_display_and_filter_agree(
    headers: Seq<Seq<char>>,
    name: Seq<char>,
    op: Operator,
    value: FieldView,
)
    ensures
        match (
            display_positions(headers, Some(seq![name])),
            filter_predicates(headers, seq![ConditionView { column: name, op, value }]),
        ) {
            (Ok(shown), Ok(tested)) => shown.len() == 1 && tested.len() == 1 && shown[0]
                == tested[0].column && column_of(headers, name) == Some(shown[0]),
            (Err(ColumnDefect::Unknown(i)), Err(ColumnDefect::Unknown(j))) => i == 0 && j == 0
                && column_of(headers, name) is None,
            _ => false,
        },
{
    let names = seq![name];
    let conditions = seq![ConditionView { column: name, op, value }];
    assert(named_columns(conditions) =~= names);
    if column_of(headers, name) is None {
        assert(is_first_unknown(headers, names, 0));
        lemma_first_unknown(headers, names, 0);
    } else {
        assert forall|k: int| !is_first_unknown(headers, names, k) by {
            if 0 <= k < names.len() {
                assert(names[k] == name);
            }
        }
    }
}

/// Looks `name` up among the headers, the case of ASCII letters left out
/// of account. Of several headers that match, the leftmost counts.
pub fn find_column(headers: &Vec<String>, name: &str) -> (r: Option<usize>)
    ensures
        match r {
            Some(i) => column_of(texts(headers@), name@) == Some(i as int) && i < headers@.len(),
            None => column_of(texts(headers@), name@) is None,
        },
{
    let ghost hs = texts(headers@);
    let mut i: usize = 0;
    while i < headers.len()
        invariant
            i <= headers.len(),
            hs == texts(headers@),
            forall|j: int| 0 <= j < i ==> !matches_at(hs, name@, j),
        decreases headers.len() - i,
    {
        if eq_ignore_ascii_case(headers[i].as_str(), name) {
            proof {
                assert(matches_at(hs, name@, i as int));
                lemma_column_of(hs, name@, i as int);
            }
            return Some(i);
        }
        i += 1;
    }
    None
}

/// The positions of the columns to show. Without a request that is the
/// first column. With one, each name is looked up as `find_column` does,
/// in the order of the request; the first name that no header matches is
/// reported, with the whole header list, and an empty request is an error.
pub fn resolve_display_columns(headers: &Vec<String>, requested: &Option<Vec<String>>) -> (r:
    Result<Vec<usize>, QueryError>)
    ensures
        match display_positions(texts(headers@), requested_names(*requested)) {
            Ok(positions) => r matches Ok(found) && found@.map_values(|p: usize| p as int)
                == positions,
            Err(defect) => r matches Err(error) && error.reports(
                defect,
                names_or_none(requested_names(*requested)),
                ColumnRole::Display,
                texts(headers@),
            ),
        },
        r matches Ok(found) ==> forall|j: int|
            0 <= j < found@.len() ==> #[trigger] found@[j] < headers@.len(),
{
    let ghost hs = texts(headers@);
    match requested {
        None => {
            if headers.len() > 0 {
                let found: Vec<usize> = vec![0];
                assert(found@.map_values(|p: usize| p as int) =~= seq![0int]);
                Ok(found)
            } else {
                Err(QueryError::NoHeaders)
            }
        },
        Some(names) => {
            let ghost ns = texts(names@);
            let mut found: Vec<usize> = Vec::new();
            let mut i: usize = 0;
            while i < names.len()
                invariant
                    i <= names.len(),
                    *requested == Some(*names),
                    hs == texts(headers@),
                    ns == texts(names@),
                    found@.len() == i,
                    forall|j: int| 0 <= j < i ==> #[trigger] found@[j] < headers@.len(),
                    forall|j: int|
                        0 <= j < i ==> column_of(hs, #[trigger] ns[j]) == Some(found@[j] as int),
                decreases names.len() - i,
            {
                match find_column(headers, names[i].as_str()) {
                    Some(p) => {
                        found.push(p);
                    },
                    None => {
                        proof {
                            assert(ns[i as int] == names@[i as int]@);
                            assert(is_first_unknown(hs, ns, i as int));
                            lemma_first_unknown(hs, ns, i as int);
                        }
                        return Err(
                            QueryError::UnknownColumn {
                                name: names[i].clone(),
                                role: ColumnRole::Display,
                                headers: copy_names(headers),
                            },
                        );
                    },
                }
                i += 1;
            }
            proof {
                assert forall|k: int| !is_first_unknown(hs, ns, k) by {}
                assert(found@.map_values(|p: usize| p as int) =~= positions_of(hs, ns));
            }
            if found.len() == 0 {
                Err(QueryError::NoDisplayColumns)
            } else {
                Ok(found)
            }
        },
    }
}

/// The predicates of a filter: each condition with its column looked up as
/// `find_column` does. The first condition whose column no header matches
/// is reported, with the whole header list.
pub fn resolve_filters(headers: &Vec<String>, conditions: &Vec<Condition>) -> (r: Result<
    Vec<Predicate>,
    QueryError,
>)
    ensures
        match filter_predicates(texts(headers@), condition_views(conditions@)) {
            Ok(predicates) => r matches Ok(found) && crate::filter::predicate_views(found@)
                == predicates,
            Err(defect) => r matches Err(error) && error.reports(
                defect,
                named_columns(condition_views(conditions@)),
                ColumnRole::Filter,
                texts(headers@),
            ),
        },
{
    let ghost hs = texts(headers@);
    let ghost cs = condition_views(conditions@);
    let ghost ns = named_columns(cs);
    let mut found: Vec<Predicate> = Vec::new();
    let mut i: usize = 0;
    while i < conditions.len()
        invariant
            i <= conditions.len(),
            hs == texts(headers@),
            cs == condition_views(conditions@),
            ns == named_columns(cs),
            found@.len() == i,
            forall|j: int| 0 <= j < i ==> column_of(hs, #[trigger] ns[j]) is Some,
            forall|j: int|
                0 <= j < i ==> (#[trigger] found@[j])@ == (PredicateView {
                    column: column_of(hs, cs[j].column).unwrap(),
                    op: cs[j].op,
                    value: cs[j].value,
                }),
        decreases conditions.len() - i,
    {
        let condition = &conditions[i];
        assert(ns[i as int] == condition.column@);
        match find_column(headers, condition.column.as_str()) {
            Some(p) => {
                found.push(
                    Predicate {
                        column: p,
                        op: condition.op,
                        value: Field {
                            text: condition.value.text.clone(),
                            reading: condition.value.reading,
                        },
                    },
                );
            },
            None => {
                proof {
                    assert(is_first_unknown(hs, ns, i as int));
                    lemma_first_unknown(hs, ns, i as int);
                }
                return Err(
                    QueryError::UnknownColumn {
                        name: condition.column.clone(),
                        role: ColumnRole::Filter,
                        headers: copy_names(headers),
                    },
                );
            },
        }
        i += 1;
    }
    proof {
        assert forall|k: int| !is_first_unknown(hs, ns, k) by {}
        assert(crate::filter::predicate_views(found@) =~= filter_predicates(hs, cs)->Ok_0);
    }
    Ok(found)
}

} // verus!
