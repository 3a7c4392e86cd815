//! The inner nodes of the expression tree.

use vstd::prelude::*;
use vstd::slice::slice_subrange;
use vstd::string::StringExecFns;
use crate::error::{Error, ErrorView};
use crate::parse::scan::{
    balanced, close_index, enclosed, find_close_idx, found_before, has_close, operator_at, scan,
    split_index, Scan,
};
use crate::parse::tree::{
    apply, build_tree, interior, msg_missing_operator, msg_unbalanced, view_err, ParseTree,
    ValueError,
};
use crate::text::push_char;
use crate::token::ParseToken;
use crate::types::{holding, Operator};

verus! {

/// An operator with its two operands.
#[derive(Debug, PartialEq, Eq)]
pub struct ParseNode {
    pub operator: Operator,
    pub left: Box<ParseTree>,
    pub right: Box<ParseTree>,
}

/// The node of a slice of tokens.
///
/// Brackets that enclose the whole slice are dropped. The slice is then
/// split at the operator that binds weakest, and the parts on either side of
/// it give the two operands. A minus sign at the very front has no left
/// operand: it subtracts its right operand from zero.
pub open spec fn build_node(s: Seq<ParseToken>) -> Result<ParseNode, ErrorView>
    decreases s.len(), 0int,
{
    if !balanced(s) {
        Err(ErrorView::ParseTree(msg_unbalanced()))
    } else if enclosed(s) {
        build_node(interior(s))
    } else {
        match split_index(s) {
            None => Err(ErrorView::ParseTree(msg_missing_operator())),
            Some(k) => {
                if 0 <= k < s.len() {
                    let left = if k == 0 && operator_at(s, k) == Operator::Minus {
                        Ok(ParseTree::Number(0))
                    } else {
                        build_tree(s.subrange(0, k))
                    };
                    match left {
                        Err(e) => Err(e),
                        Ok(left) => match build_tree(s.subrange(k + 1, s.len() as int)) {
                            Err(e) => Err(e),
                            Ok(right) => Ok(
                                ParseNode {
                                    operator: operator_at(s, k),
                                    left: Box::new(left),
                                    right: Box::new(right),
                                },
                            ),
                        },
                    }
                } else {
                    Err(ErrorView::ParseTree(msg_missing_operator()))
                }
            },
        }
    }
}

/// The sign an operator is printed with.
pub open spec fn glyph(op: Operator) -> char {
    match op {
        Operator::Plus => '+',
        Operator::Minus => '-',
        Operator::Multiply => '\u{d7}',
        Operator::Divide => '\u{f7}',
    }
}

/// The index of the operator behind the second operand of a stream that
/// begins with an operand of one token and an operator: behind the bracket
/// that closes the one at index 2, or at index 3 behind a number. `None`
/// where the second operand ends the stream.
pub open spec fn second_operator(s: Seq<ParseToken>) -> Option<int> {
    if s.len() <= 3 {
        None
    } else if s[2] is Open {
        if close_index(s, 2) == s.len() - 1 {
            None
        } else {
            Some(close_index(s, 2) + 1)
        }
    } else {
        Some(3)
    }
}

/// The stream begins with one token, an operator and an operand, and what
/// follows that operand, if anything, is an operator.
pub open spec fn begins_with_operation(s: Seq<ParseToken>) -> bool {
    &&& s.len() >= 2
    &&& s[1] is Op
    &&& s.len() > 3 ==> {
        &&& s[2] is Open || s[2] is Number
        &&& s[2] is Open ==> has_close(s, 2)
        &&& second_operator(s) matches Some(k) ==> s[k] is Op
    }
}

impl ParseNode {
    /// Finds the first operator of a stream and, where the stream goes on
    /// behind its second operand, the operator there with its index.
    pub fn find_operators(stream: &[ParseToken]) -> (r: (Operator, Option<(Operator, usize)>))
        requires
            begins_with_operation(stream@),
        ensures
            r.0 == operator_at(stream@, 1),
            match r.1 {
                Some(p) => second_operator(stream@) == Some(p.1 as int) && p.0 == operator_at(
                    stream@,
                    p.1 as int,
                ),
                None => second_operator(stream@) is None,
            },
    {
        let op1 = match stream[1] {
            ParseToken::Op(p) => p.0,
            _ => Operator::Plus,
        };
        let len = stream.len();
        if len <= 3 {
            return (op1, None);
        }
        let idx: usize = match stream[2] {
            ParseToken::Open(_) => match find_close_idx(stream, 2) {
                Some(close) => {
                    if close == len - 1 {
                        return (op1, None);
                    }
                    close + 1
                },
                None => return (op1, None),
            },
            _ => 3,
        };
        match stream[idx] {
            ParseToken::Op(p) => (op1, Some((p.0, idx))),
            _ => (op1, None),
        }
    }

    /// The value of the node in integers, if it has one.
    pub open spec fn integer_value(self) -> Result<int, ValueError>
        decreases self,
    {
        match self.left.integer_value() {
            Err(e) => Err(e),
            Ok(left) => match self.right.integer_value() {
                Err(e) => Err(e),
                Ok(right) => apply(self.operator, left, right),
            },
        }
    }

    /// The node in brackets: its operands around the operator's sign.
    pub open spec fn printed(self) -> Seq<char>
        decreases self,
    {
        "("@ + self.left.printed() + seq![glyph(self.operator)] + self.right.printed() + ")"@
    }

    /// Computes the value of the node in integers.
    pub fn evaluate_integer(&self) -> (r: Result<i64, ValueError>)
        ensures
            match r {
                Ok(v) => self.integer_value() == Ok::<int, ValueError>(v as int),
                Err(e) => self.integer_value() == Err::<int, ValueError>(e),
            },
        decreases self,
    {
        let left = match self.left.evaluate_integer() {
            Ok(v) => v,
            Err(e) => return Err(e),
        };
        let right = match self.right.evaluate_integer() {
            Ok(v) => v,
            Err(e) => return Err(e),
        };
        let value = match self.operator {
            Operator::Plus => left.checked_add(right),
            Operator::Minus => left.checked_sub(right),
            Operator::Multiply => left.checked_mul(right),
            Operator::Divide => {
                if right == 0 {
                    return Err(ValueError::DivisionByZero);
                }
                match left.checked_rem_euclid(right) {
                    Some(rest) => if rest != 0 {
                        return Err(ValueError::Fraction);
                    },
                    None => {},
                }
                left.checked_div_euclid(right)
            },
        };
        match value {
            Some(v) => Ok(v),
            None => Err(ValueError::Overflow),
        }
    }

    /// Prints the node in brackets.
    pub fn print(&self) -> (r: String)
        ensures
            r@ == self.printed(),
        decreases self,
    {
        let mut out = String::new();
        out.append("(");
        out.append(self.left.print().as_str());
        let sign = match self.operator {
            Operator::Plus => '+',
            Operator::Minus => '-',
            Operator::Multiply => '\u{d7}',
            Operator::Divide => '\u{f7}',
        };
        push_char(&mut out, sign);
        out.append(self.right.print().as_str());
        out.append(")");
        proof {
            assert(("("@ + self.left.printed()).push(sign) == "("@ + self.left.printed() + seq![
                sign,
            ]);
        }
        out
    }

    /// Builds the node of a slice of tokens, or says why it has none.
    pub fn from(stream: &[ParseToken]) -> (r: Result<Self, Error>)
        ensures
            view_err(r) == build_node(stream@),
        decreases stream@.len(), 0int, 1int,
    {
        let found = scan(stream);
        Self::split(stream, &found)
    }

    /// Builds the node of a slice from what a scan of it has found.
    pub(crate) fn split(stream: &[ParseToken], found: &Scan) -> (r: Result<Self, Error>)
        requires
            found.balanced == balanced(stream@),
            found.enclosed == (balanced(stream@) && enclosed(stream@)),
            found.balanced ==> found.split@ == holding(
                found_before(stream@, stream@.len() as int),
            ),
        ensures
            view_err(r) == build_node(stream@),
        decreases stream@.len(), 0int, 0int,
    {
        let len = stream.len();
        if !found.balanced {
            return Err(Error::ParseTree("Unbalanced parentheses".to_owned()));
        }
        if found.enclosed {
            return Self::from(slice_subrange(stream, 1, len - 1));
        }
        if found.split.is_none() {
            return Err(Error::ParseTree("Missing operator".to_owned()));
        }
        let idx = found.split.idx();
        let operator = found.split.kind();
        proof {
            crate::parse::scan::lemma_last_split(stream@, len as int, true);
            crate::parse::scan::lemma_last_split(stream@, len as int, false);
        }
        let unary = idx == 0 && match operator {
            Operator::Minus => true,
            _ => false,
        };
        let left = if unary {
            ParseTree::Number(0)
        } else {
            match ParseTree::from(slice_subrange(stream, 0, idx)) {
                Ok(tree) => tree,
                Err(e) => return Err(e),
            }
        };
        let right = match ParseTree::from(slice_subrange(stream, idx + 1, len)) {
            Ok(tree) => tree,
            Err(e) => return Err(e),
        };
        Ok(Self { operator, left: Box::new(left), right: Box::new(right) })
    }
}

} // verus!
