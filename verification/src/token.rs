//! The three token alphabets: classified characters, expression tokens and
//! the morphemes of spelled-out numerals.

use vstd::prelude::*;
use crate::types::{Operator, StartEnd};

verus! {

/// One classified input character.
#[derive(Debug, PartialEq, Eq, Copy, Clone, Structural)]
pub enum InputToken {
    Space,
    Letter(char),
    Digit(char),
    Symbol(char),
    Whatever(char),
}

/// One token of an expression, with the range of input it was read from.
#[derive(Debug, PartialEq, Eq, Copy, Clone)]
pub enum ParseToken {
    Number((i64, StartEnd)),
    Op((Operator, StartEnd)),
    Open(StartEnd),
    Close(StartEnd),
}

impl ParseToken {
    /// The range of input the token was read from.
    pub open spec fn spec_range(self) -> StartEnd {
        match self {
            ParseToken::Number(p) => p.1,
            ParseToken::Op(p) => p.1,
            ParseToken::Open(r) => r,
            ParseToken::Close(r) => r,
        }
    }

    /// The token is an operator, and that operator is `op`.
    pub open spec fn is_op(self, op: Operator) -> bool {
        self matches ParseToken::Op(p) && p.0 == op
    }

    pub fn range(&self) -> (r: StartEnd)
        ensures
            r == self.spec_range(),
    {
        match self {
            ParseToken::Number(p) => p.1,
            ParseToken::Op(p) => p.1,
            ParseToken::Open(r) => *r,
            ParseToken::Close(r) => *r,
        }
    }
}

/// A keyword, a simple numeral, or one morpheme of a compound numeral.
#[derive(Debug, PartialEq, Eq, Copy, Clone, Structural)]
pub enum WordToken {
    Plus,
    Minus,
    Multiply,
    Divide,
    Open,
    Close,
    Number(u64),
    Ein,
    Eins,
    Elf,
    Zwoelf,
    Zehn,
    Zwanzig,
    Sechzig,
    Siebzig,
    Zig,
    SSig,
    Hundert,
    Tausend,
    Und,
}

} // verus!
