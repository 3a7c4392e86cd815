//! The expression tree and its construction from a slice of tokens.

use vstd::prelude::*;
use vstd::slice::slice_subrange;
use vstd::string::StringExecFns;
use crate::error::{Error, ErrorView};
use crate::parse::node::{build_node, ParseNode};
use crate::parse::scan::{balanced, enclosed, scan};
use crate::text::{decimal, push_decimal};
use crate::token::ParseToken;
use crate::types::Operator;

verus! {

/// An expression: a number, or an operator applied to two expressions.
///
/// A leaf holds the number of one token, or its negative where the token
/// stands behind a sign. The tokens read from a text hold numbers from 0 to
/// `2^63 - 1`, so a leaf of their tree lies between `-(2^63 - 1)` and
/// `2^63 - 1`.
#[derive(Debug, PartialEq, Eq)]
pub enum ParseTree {
    Number(i128),
    Node(Box<ParseNode>),
}

/// Says that a slice which should hold an operand is empty.
pub open spec fn msg_missing_operand() -> Seq<char> {
    "Missing operand"@
}

/// Says that a token which should be a number is not.
pub open spec fn msg_expect_number() -> Seq<char> {
    "Expect number variant"@
}

/// Says that a number is preceded by something other than a minus sign.
pub open spec fn msg_invalid_prefix() -> Seq<char> {
    "Invalid prefix operator"@
}

/// Says that a slice has a bracket without a partner.
pub open spec fn msg_unbalanced() -> Seq<char> {
    "Unbalanced parentheses"@
}

/// Says that a slice has no operator outside its brackets.
pub open spec fn msg_missing_operator() -> Seq<char> {
    "Missing operator"@
}

/// A result with its error replaced by what the error says.
pub open spec fn view_err<T>(r: Result<T, Error>) -> Result<T, ErrorView> {
    match r {
        Ok(t) => Ok(t),
        Err(e) => Err(e@),
    }
}

/// The slice without its first and last token.
pub open spec fn interior(s: Seq<ParseToken>) -> Seq<ParseToken> {
    s.subrange(1, s.len() - 1)
}

/// The tree of a slice of tokens.
///
/// One number is a leaf, and so is a minus sign with one number, negated. A
/// slice enclosed in one pair of brackets has the tree of what is between
/// them. Any other slice is split at the operator that binds weakest.
pub open spec fn build_tree(s: Seq<ParseToken>) -> Result<ParseTree, ErrorView>
    decreases s.len(), 1int,
{
    if s.len() == 0 {
        Err(ErrorView::ParseTree(msg_missing_operand()))
    } else if s.len() == 1 {
        match s[0] {
            ParseToken::Number(p) => Ok(ParseTree::Number(p.0 as i128)),
            _ => Err(ErrorView::ParseTree(msg_expect_number())),
        }
    } else if s.len() == 2 {
        if s[0].is_op(Operator::Minus) {
            match s[1] {
                ParseToken::Number(p) => Ok(ParseTree::Number((-p.0) as i128)),
                _ => Err(ErrorView::ParseTree(msg_expect_number())),
            }
        } else {
            Err(ErrorView::ParseTree(msg_invalid_prefix()))
        }
    } else if balanced(s) && enclosed(s) {
        build_tree(interior(s))
    } else {
        match build_node(s) {
            Ok(node) => Ok(ParseTree::Node(Box::new(node))),
            Err(e) => Err(e),
        }
    }
}

/// Why a tree has no integer value.
#[derive(Debug, Copy, Clone, PartialEq, Eq, Structural)]
pub enum ValueError {
    /// A divisor is zero.
    DivisionByZero,
    /// A quotient is not an integer.
    Fraction,
    /// A leaf or the value of an operation does not fit 64 bits.
    Overflow,
}

/// The integer `v` if it fits 64 bits.
pub open spec fn fit(v: int) -> Result<int, ValueError> {
    if i64::MIN <= v <= i64::MAX {
        Ok(v)
    } else {
        Err(ValueError::Overflow)
    }
}

/// The integer value of one operation on two integers.
pub open spec fn apply(op: Operator, left: int, right: int) -> Result<int, ValueError> {
    match op {
        Operator::Plus => fit(left + right),
        Operator::Minus => fit(left - right),
        Operator::Multiply => fit(left * right),
        Operator::Divide => if right == 0 {
            Err(ValueError::DivisionByZero)
        } else if left % right != 0 {
            Err(ValueError::Fraction)
        } else {
            fit(left / right)
        },
    }
}

/// A quotient whose divisor has the value zero has no value: it is a
/// division by zero.
pub proof fn lemma_zero_divisor_has_no_value(node: ParseNode)
    requires
        node.operator is Divide,
        node.left.integer_value() is Ok,
        node.right.integer_value() == Ok::<int, ValueError>(0),
    ensures
        node.integer_value() == Err::<int, ValueError>(ValueError::DivisionByZero),
{
}

impl ParseTree {
    /// The value of the tree in integers: the left operand first, then the
    /// right one, then the operation on both. It has one where no divisor is
    /// zero, every quotient is an integer, and every leaf and every
    /// operation stays within 64 bits.
    pub open spec fn integer_value(self) -> Result<int, ValueError>
        decreases self,
    {
        match self {
            ParseTree::Number(n) => fit(n as int),
            ParseTree::Node(node) => node.integer_value(),
        }
    }

    /// The tree in brackets: a leaf as its decimal numeral, a negative leaf
    /// as zero minus its amount in brackets, a node as its two operands
    /// around the operator's sign in brackets.
    pub open spec fn printed(self) -> Seq<char>
        decreases self,
    {
        match self {
            ParseTree::Number(n) => if n < 0 {
                "(0-"@ + decimal((-n) as nat) + ")"@
            } else {
                decimal(n as nat)
            },
            ParseTree::Node(node) => node.printed(),
        }
    }

    /// Computes the value of the tree in integers.
    pub fn evaluate_integer(&self) -> (r: Result<i64, ValueError>)
        ensures
            match r {
                Ok(v) => self.integer_value() == Ok::<int, ValueError>(v as int),
                Err(e) => self.integer_value() == Err::<int, ValueError>(e),
            },
        decreases self,
    {
        match self {
            ParseTree::Number(n) => {
                if *n < i64::MIN as i128 || *n > i64::MAX as i128 {
                    Err(ValueError::Overflow)
                } else {
                    Ok(*n as i64)
                }
            },
            ParseTree::Node(node) => node.evaluate_integer(),
        }
    }

    /// Prints the tree in brackets.
    pub fn print(&self) -> (r: String)
        ensures
            r@ == self.printed(),
        decreases self,
    {
        match self {
            ParseTree::Number(n) => {
                let mut out = String::new();
                if *n < 0 {
                    out.append("(0-");
                    let amount: u128 = if *n == i128::MIN {
                        170141183460469231731687303715884105728u128
                    } else {
                        (-*n) as u128
                    };
                    push_decimal(&mut out, amount);
                    out.append(")");
                } else {
                    push_decimal(&mut out, *n as u128);
                }
                out
            },
            ParseTree::Node(node) => node.print(),
        }
    }

    /// Builds the tree of a slice of tokens, or says why it has none.
    pub fn from(stream: &[ParseToken]) -> (r: Result<Self, Error>)
        ensures
            view_err(r) == build_tree(stream@),
        decreases stream@.len(), 1int,
    {
        let len = stream.len();
        if len == 0 {
            return Err(Error::ParseTree("Missing operand".to_owned()));
        }
        if len == 1 {
            return match stream[0] {
                ParseToken::Number(p) => Ok(Self::Number(p.0 as i128)),
                _ => Err(Error::ParseTree("Expect number variant".to_owned())),
            };
        }
        if len == 2 {
            match stream[0] {
                ParseToken::Op(p) => {
                    match p.0 {
                        Operator::Minus => {},
                        _ => return Err(Error::ParseTree("Invalid prefix operator".to_owned())),
                    }
                },
                _ => return Err(Error::ParseTree("Invalid prefix operator".to_owned())),
            }
            return match stream[1] {
                ParseToken::Number(p) => Ok(Self::Number(-(p.0 as i128))),
                _ => Err(Error::ParseTree("Expect number variant".to_owned())),
            };
        }
        let found = scan(stream);
        if found.balanced && found.enclosed {
            return Self::from(slice_subrange(stream, 1, len - 1));
        }
        match ParseNode::split(stream, &found) {
            Ok(node) => Ok(Self::Node(Box::new(node))),
            Err(e) => Err(e),
        }
    }
}

} // verus!
