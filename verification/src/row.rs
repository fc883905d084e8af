//! Fields and rows: the text of each field, and how it reads as a number.

use vstd::prelude::*;
use crate::text::{trim, trimmed};

verus! {

/// How a text reads as a number. The library does not read numbers
/// itself: whoever builds a field says how its text reads.
#[derive(Debug, Clone, Copy, PartialEq, Eq, Structural)]
pub enum Reading {
    /// The text, without the white space around it, is no number.
    Text,
    /// It is a number that stands in no order to any other (not-a-number).
    Unordered,
    /// It is a number, and this is its rank: of two numbers the smaller
    /// has the smaller rank, and equal numbers have equal ranks.
    Number(i64),
}

/// The bit pattern without its sign bit: exponent and fraction of a double.
pub open spec fn double_magnitude(bits: u64) -> int {
    if bits >= 0x8000_0000_0000_0000 {
        bits - 0x8000_0000_0000_0000
    } else {
        bits as int
    }
}

/// The reading of a double, given by its 64 bits in the IEEE 754 format.
/// A pattern whose exponent bits are all set and whose fraction is not
/// zero is not-a-number. Any other has as its rank the magnitude, taken
/// negative where the sign bit is set, so that both zeros have rank 0 and
/// the infinities the ranks of largest size.
pub open spec fn reading_of_bits(bits: u64) -> Reading {
    let magnitude = double_magnitude(bits);
    if magnitude > 0x7ff0_0000_0000_0000 {
        Reading::Unordered
    } else if bits >= 0x8000_0000_0000_0000 {
        Reading::Number((-magnitude) as i64)
    } else {
        Reading::Number(magnitude as i64)
    }
}

impl Reading {
    /// The reading of the double that has the given bits.
    pub fn from_double_bits(bits: u64) -> (r: Reading)
        ensures
            r == reading_of_bits(bits),
    {
        let negative = bits >= 0x8000_0000_0000_0000;
        let magnitude: u64 = if negative {
            bits - 0x8000_0000_0000_0000
        } else {
            bits
        };
        if magnitude > 0x7ff0_0000_0000_0000 {
            Reading::Unordered
        } else if negative {
            Reading::Number(-(magnitude as i64))
        } else {
            Reading::Number(magnitude as i64)
        }
    }

    /// The reading of a text, given what parsing it as a double gave: the
    /// bits of the double, or nothing where the text is no number.
    pub fn of_parsed(bits: Option<u64>) -> (r: Reading)
        ensures
            r == match bits {
                Some(b) => reading_of_bits(b),
                None => Reading::Text,
            },
    {
        match bits {
            Some(b) => Reading::from_double_bits(b),
            None => Reading::Text,
        }
    }
}

/// The part of a text that is read as a number: the text without the
/// white space around it.
pub fn number_text<'a>(text: &'a str) -> (r: &'a str)
    ensures
        r@ == trimmed(text@),
{
    trim(text)
}

/// The rank of the double with the given bits, where it has one.
pub open spec fn rank_of(bits: u64) -> int {
    match reading_of_bits(bits) {
        Reading::Number(rank) => rank as int,
        _ => 0,
    }
}

/// Ranks order the bit patterns as the doubles are ordered: among those
/// without the sign bit the larger pattern has the larger rank, among
/// those with it the smaller rank, and none with the sign bit ranks above
/// one without.
pub proof fn lemma_rank_order(a: u64, b: u64)
    requires
        reading_of_bits(a) is Number,
        reading_of_bits(b) is Number,
    ensures
        a < 0x8000_0000_0000_0000 && b < 0x8000_0000_0000_0000 ==> (rank_of(a) < rank_of(b) <==> a
            < b),
        a >= 0x8000_0000_0000_0000 && b >= 0x8000_0000_0000_0000 ==> (rank_of(a) < rank_of(b)
            <==> a > b),
        a >= 0x8000_0000_0000_0000 && b < 0x8000_0000_0000_0000 ==> rank_of(a) <= rank_of(b),
{
}

/// One field of a row, or the value of a filter.
#[derive(Debug, Clone, PartialEq, Eq)]
pub struct Field {
    pub text: String,
    pub reading: Reading,
}

/// What a field is to the contracts.
pub struct FieldView {
    pub text: Seq<char>,
    pub reading: Reading,
}

impl View for Field {
    type V = FieldView;

    open spec fn view(&self) -> FieldView {
        FieldView { text: self.text@, reading: self.reading }
    }
}

impl Field {
    /// A field with the given text and reading.
    pub fn new(text: String, reading: Reading) -> (f: Field)
        ensures
            f.text == text,
            f.reading == reading,
    {
        Field { text, reading }
    }
}

/// One row of data: its fields in order.
#[derive(Debug, Clone, PartialEq, Eq)]
pub struct Row {
    pub fields: Vec<Field>,
}

impl View for Row {
    type V = Seq<FieldView>;

    open spec fn view(&self) -> Seq<FieldView> {
        self.fields@.map_values(|f: Field| f@)
    }
}

impl Row {
    /// A row of the given fields.
    pub fn new(fields: Vec<Field>) -> (r: Row)
        ensures
            r.fields == fields,
    {
        Row { fields }
    }

    /// The number of fields.
    pub fn len(&self) -> (n: usize)
        ensures
            n == self@.len(),
    {
        self.fields.len()
    }

    /// The field at `position`, if the row has one there.
    pub fn get(&self, position: usize) -> (f: Option<&Field>)
        ensures
            match f {
                Some(x) => position < self@.len() && x@ == self@[position as int],
                None => position >= self@.len(),
            },
    {
        if position < self.fields.len() {
            Some(&self.fields[position])
        } else {
            None
        }
    }
}

/// The views of the rows, in order.
pub open spec fn row_views(rows: Seq<Row>) -> Seq<Seq<FieldView>> {
    rows.map_values(|r: Row| r@)
}

} // verus!
