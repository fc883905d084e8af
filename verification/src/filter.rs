//! The filter engine: which rows satisfy every predicate of a filter.

use vstd::prelude::*;
use crate::operator::Operator;
use crate::row::{Field, FieldView, Reading, Row};
use crate::text::{eq_ignore_ascii_case, eq_ignore_case, lex_compare, lex_lt, Order};

verus! {

/// One clause of a filter: the field at `column` must stand to `value` as
/// `op` says.
#[derive(Debug, Clone, PartialEq, Eq)]
pub struct Predicate {
    pub column: usize,
    pub op: Operator,
    pub value: Field,
}

/// What a predicate is to the contracts.
pub struct PredicateView {
    pub column: int,
    pub op: Operator,
    pub value: FieldView,
}

impl View for Predicate {
    type V = PredicateView;

    open spec fn view(&self) -> PredicateView {
        PredicateView { column: self.column as int, op: self.op, value: self.value@ }
    }
}

/// The views of the predicates, in order.
pub open spec fn predicate_views(predicates: Seq<Predicate>) -> Seq<PredicateView> {
    predicates.map_values(|p: Predicate| p@)
}

/// What an ordering operator says of two numbers, given by their ranks.
pub open spec fn numeric_verdict(op: Operator, field: int, value: int) -> bool {
    match op {
        Operator::Lt => field < value,
        Operator::Gt => field > value,
        Operator::LtEq => field <= value,
        Operator::GtEq => field >= value,
        _ => false,
    }
}

/// What an ordering operator says of two texts, in the lexicographic order
/// of code points. Case counts here.
pub open spec fn lexical_verdict(op: Operator, field: Seq<char>, value: Seq<char>) -> bool {
    match op {
        Operator::Lt => lex_lt(field, value),
        Operator::Gt => lex_lt(value, field),
        Operator::LtEq => lex_lt(field, value) || field == value,
        Operator::GtEq => lex_lt(value, field) || field == value,
        _ => false,
    }
}

/// Whether `field` stands to `value` as `op` says. Equality leaves the case
/// of ASCII letters out of account. An ordering operator compares the two
/// as numbers where both read as numbers, and as texts where one of them
/// does not.
pub open spec fn compares(op: Operator, field: FieldView, value: FieldView) -> bool {
    match op {
        Operator::Eq => eq_ignore_case(field.text, value.text),
        Operator::NotEq => !eq_ignore_case(field.text, value.text),
        _ => match (field.reading, value.reading) {
            (Reading::Number(a), Reading::Number(b)) => numeric_verdict(op, a as int, b as int),
            (Reading::Text, _) | (_, Reading::Text) => lexical_verdict(op, field.text, value.text),
            _ => false,
        },
    }
}

/// Whether `row` satisfies `p`. A row that has no field at the predicate's
/// column satisfies no predicate.
pub open spec fn predicate_holds(row: Seq<FieldView>, p: PredicateView) -> bool {
    0 <= p.column < row.len() && compares(p.op, row[p.column], p.value)
}

/// Whether `row` satisfies every predicate.
pub open spec fn row_passes(row: Seq<FieldView>, predicates: Seq<PredicateView>) -> bool {
    forall|i: int| 0 <= i < predicates.len() ==> predicate_holds(row, #[trigger] predicates[i])
}

/// The rows that satisfy every predicate, in their order.
pub open spec fn passing_rows(rows: Seq<Row>, predicates: Seq<PredicateView>) -> Seq<Row> {
    rows.filter(|r: Row| row_passes(r@, predicates))
}

/// The rows that a list of references points to.
pub open spec fn referred(rows: Seq<&Row>) -> Seq<Row> {
    rows.map_values(|r: &Row| *r)
}

/// A filter without predicates keeps every row, in the order given.
pub proof fn lemma_empty_filter_keeps_all(rows: Seq<Row>)
    ensures
        passing_rows(rows, Seq::empty()) == rows,
    decreases rows.len(),
{
    let pred = |r: Row| row_passes(r@, Seq::<PredicateView>::empty());
    reveal(Seq::filter);
    if rows.len() > 0 {
        lemma_empty_filter_keeps_all(rows.drop_last());
        assert(pred(rows.last()));
        assert(rows.drop_last().push(rows.last()) == rows);
    } else {
        assert(rows.filter(pred) =~= rows);
    }
}

/// Where the row has a field at the column, `NotEq` holds exactly where
/// `Eq` does not. Where it has none, neither of the two holds.
pub proof fn lemma_not_eq_against_eq(row: Seq<FieldView>, column: int, value: FieldView)
    ensures
        0 <= column < row.len() ==> predicate_holds(
            row,
            PredicateView { column, op: Operator::NotEq, value },
        ) == !predicate_holds(row, PredicateView { column, op: Operator::Eq, value }),
        !(0 <= column < row.len()) ==> !predicate_holds(
            row,
            PredicateView { column, op: Operator::NotEq, value },
        ) && !predicate_holds(row, PredicateView { column, op: Operator::Eq, value }),
{
}

/// Two sides that both read as ordered numbers are compared by their
/// ranks, whatever their texts are.
pub proof fn lemma_numbers_compare_by_rank(
    op: Operator,
    field: FieldView,
    value: FieldView,
    a: i64,
    b: i64,
)
    requires
        op.is_ordering(),
        field.reading == Reading::Number(a),
        value.reading == Reading::Number(b),
    ensures
        compares(op, field, value) == numeric_verdict(op, a as int, b as int),
{
}

/// Where one side does not read as a number, an ordering operator compares
/// the two texts as they stand, in the lexicographic order of code points.
pub proof fn lemma_texts_compare_lexically(op: Operator, field: FieldView, value: FieldView)
    requires
        op.is_ordering(),
        field.reading == Reading::Text || value.reading == Reading::Text,
    ensures
        compares(op, field, value) == lexical_verdict(op, field.text, value.text),
{
}

/// The order of the predicates does not change which rows pass: two
/// filters with the same predicates, each as often, accept the same rows.
pub proof fn lemma_predicate_order_is_immaterial(
    row: Seq<FieldView>,
    a: Seq<PredicateView>,
    b: Seq<PredicateView>,
)
    requires
        a.to_multiset() == b.to_multiset(),
    ensures
        row_passes(row, a) == row_passes(row, b),
{
    a.to_multiset_ensures();
    b.to_multiset_ensures();
    if row_passes(row, a) {
        assert forall|i: int| 0 <= i < b.len() implies predicate_holds(row, #[trigger] b[i]) by {
            assert(b.contains(b[i]));
            assert(b.to_multiset().count(b[i]) > 0);
            assert(a.to_multiset().count(b[i]) > 0);
            assert(a.contains(b[i]));
            let j = choose|j: int| 0 <= j < a.len() && a[j] == b[i];
            assert(predicate_holds(row, a[j]));
        }
    }
    if row_passes(row, b) {
        assert forall|i: int| 0 <= i < a.len() implies predicate_holds(row, #[trigger] a[i]) by {
            assert(a.contains(a[i]));
            assert(a.to_multiset().count(a[i]) > 0);
            assert(b.to_multiset().count(a[i]) > 0);
            assert(b.contains(a[i]));
            let j = choose|j: int| 0 <= j < b.len() && b[j] == a[i];
            assert(predicate_holds(row, b[j]));
        }
    }
}

/// Compares a field with a value.
pub fn compare_fields(op: Operator, field: &Field, value: &Field) -> (r: bool)
    ensures
        r == compares(op, field@, value@),
{
    match op {
        Operator::Eq => eq_ignore_ascii_case(field.text.as_str(), value.text.as_str()),
        Operator::NotEq => !eq_ignore_ascii_case(field.text.as_str(), value.text.as_str()),
        _ => match (field.reading, value.reading) {
            (Reading::Number(a), Reading::Number(b)) => match op {
                Operator::Lt => a < b,
                Operator::Gt => a > b,
                Operator::LtEq => a <= b,
                Operator::GtEq => a >= b,
                _ => false,
            },
            (Reading::Text, _) | (_, Reading::Text) => {
                let order = lex_compare(field.text.as_str(), value.text.as_str());
                match op {
                    Operator::Lt => order == Order::Before,
                    Operator::Gt => order == Order::After,
                    Operator::LtEq => order != Order::After,
                    Operator::GtEq => order != Order::Before,
                    _ => false,
                }
            },
            _ => false,
        },
    }
}

/// Tells whether `row` satisfies `predicate`.
pub fn satisfies(row: &Row, predicate: &Predicate) -> (r: bool)
    ensures
        r == predicate_holds(row@, predicate@),
{
    match row.get(predicate.column) {
        Some(field) => compare_fields(predicate.op, field, &predicate.value),
        None => false,
    }
}

/// Tells whether `row` satisfies every one of `predicates`.
pub fn passes(row: &Row, predicates: &Vec<Predicate>) -> (r: bool)
    ensures
        r == row_passes(row@, predicate_views(predicates@)),
{
    let mut i: usize = 0;
    while i < predicates.len()
        invariant
            i <= predicates.len(),
            forall|j: int|
                0 <= j < i ==> predicate_holds(row@, #[trigger] predicate_views(predicates@)[j]),
        decreases predicates.len() - i,
    {
        if !satisfies(row, &predicates[i]) {
            assert(!predicate_holds(row@, predicate_views(predicates@)[i as int]));
            return false;
        }
        i += 1;
    }
    true
}

/// The rows that satisfy every one of `predicates`, in their order.
pub fn filter_rows<'a>(rows: &'a Vec<Row>, predicates: &Vec<Predicate>) -> (kept: Vec<&'a Row>)
    ensures
        referred(kept@) == passing_rows(rows@, predicate_views(predicates@)),
        predicates@.len() == 0 ==> referred(kept@) == rows@,
{
    let ghost views = predicate_views(predicates@);
    let ghost pred = |r: Row| row_passes(r@, views);
    let mut kept: Vec<&'a Row> = Vec::new();
    let mut i: usize = 0;
    assert(rows@.take(0).filter(pred) =~= Seq::<Row>::empty());
    while i < rows.len()
        invariant
            i <= rows.len(),
            views == predicate_views(predicates@),
            pred == |r: Row| row_passes(r@, views),
            referred(kept@) == rows@.take(i as int).filter(pred),
        decreases rows.len() - i,
    {
        let row = &rows[i];
        let ghost before = referred(kept@);
        proof {
            assert(rows@.take(i + 1).drop_last() == rows@.take(i as int));
            reveal(Seq::filter);
        }
        if passes(row, predicates) {
            kept.push(row);
            assert(referred(kept@) == before.push(*row));
        }
        i += 1;
    }
    assert(rows@.take(rows@.len() as int) == rows@);
    proof {
        if predicates@.len() == 0 {
            assert(views =~= Seq::<PredicateView>::empty());
            lemma_empty_filter_keeps_all(rows@);
        }
    }
    kept
}

} // verus!
