//! The comparison operators of a filter.

use vstd::prelude::*;
use vstd::string::*;

verus! {

/// How a filter compares a field with its value.
#[derive(Debug, Clone, Copy, PartialEq, Eq, Structural)]
pub enum Operator {
    Eq,
    NotEq,
    Lt,
    Gt,
    LtEq,
    GtEq,
}

impl Operator {
    /// The characters by which the operator is written.
    pub open spec fn token(self) -> Seq<char> {
        match self {
            Operator::Eq => seq!['='],
            Operator::NotEq => seq!['!', '='],
            Operator::Lt => seq!['<'],
            Operator::Gt => seq!['>'],
            Operator::LtEq => seq!['<', '='],
            Operator::GtEq => seq!['>', '='],
        }
    }

    /// The operator orders its two sides; the others test them for equality.
    pub open spec fn is_ordering(self) -> bool {
        self != Operator::Eq && self != Operator::NotEq
    }

    /// The operator as it is written in a filter.
    pub fn symbol(self) -> (s: &'static str)
        ensures
            s@ == self.token(),
    {
        proof {
            reveal_strlit("=");
            reveal_strlit("!=");
            reveal_strlit("<");
            reveal_strlit(">");
            reveal_strlit("<=");
            reveal_strlit(">=");
        }
        let s = match self {
            Operator::Eq => "=",
            Operator::NotEq => "!=",
            Operator::Lt => "<",
            Operator::Gt => ">",
            Operator::LtEq => "<=",
            Operator::GtEq => ">=",
        };
        assert(s@ =~= self.token());
        s
    }

    /// The operator's characters as an owned string.
    pub fn to_string(&self) -> (s: String)
        ensures
            s@ == self.token(),
    {
        String::from_str(self.symbol())
    }

    /// The operator's characters, one by one.
    pub fn token_chars(self) -> (v: Vec<char>)
        ensures
            v@ == self.token(),
    {
        let v = match self {
            Operator::Eq => vec!['='],
            Operator::NotEq => vec!['!', '='],
            Operator::Lt => vec!['<'],
            Operator::Gt => vec!['>'],
            Operator::LtEq => vec!['<', '='],
            Operator::GtEq => vec!['>', '='],
        };
        assert(v@ =~= self.token());
        v
    }
}

} // verus!
