//! Small value types shared by the lexer and the tree builder.

use vstd::prelude::*;

verus! {

/// One of the four binary operations.
#[derive(Debug, Copy, Clone, PartialEq, Eq, Structural)]
pub enum Operator {
    Plus,
    Minus,
    Multiply,
    Divide,
}

impl Operator {
    /// `Plus` and `Minus` bind weaker than `Multiply` and `Divide`.
    pub open spec fn is_additive(self) -> bool {
        self is Plus || self is Minus
    }
}

/// A half-open range `[start, end)` of character offsets into the input.
#[derive(Debug, Copy, Clone, PartialEq, Eq, Structural)]
pub struct StartEnd {
    pub start: usize,
    pub end: usize,
}

impl StartEnd {
    pub fn from(start: usize, end: usize) -> (r: Self)
        ensures
            r.start == start,
            r.end == end,
    {
        Self { start, end }
    }
}

/// Binding strength of a candidate split operator.
#[derive(Debug, Copy, Clone, PartialEq, Eq, Structural)]
pub enum ParseOperatorKind {
    Absent,
    Strong,
    Week,
}

/// The split operator found so far during a scan: its index and its kind,
/// or nothing yet.
#[derive(Debug, Copy, Clone, PartialEq, Eq, Structural)]
pub struct ParseOperator {
    idx: usize,
    kind: Option<Operator>,
}

impl View for ParseOperator {
    type V = (usize, Option<Operator>);

    /// The index and the kind. The index is 0 while no kind is recorded.
    closed spec fn view(&self) -> (usize, Option<Operator>) {
        (self.idx, self.kind)
    }
}

/// What a `ParseOperator` holds once it has recorded `found`, or nothing.
pub open spec fn holding(found: Option<(usize, Operator)>) -> (usize, Option<Operator>) {
    match found {
        Some(p) => (p.0, Some(p.1)),
        None => (0, None),
    }
}

impl ParseOperator {
    pub fn new() -> (r: Self)
        ensures
            r@ == (0usize, None::<Operator>),
    {
        Self { idx: 0, kind: None }
    }

    pub fn idx(&self) -> (r: usize)
        ensures
            r == self@.0,
    {
        self.idx
    }

    pub fn kind(&self) -> (r: Operator)
        requires
            self@.1 is Some,
        ensures
            self@.1 == Some(r),
    {
        match self.kind {
            Some(op) => op,
            None => Operator::Plus,
        }
    }

    pub fn set(&mut self, idx: usize, kind: Operator)
        ensures
            final(self)@ == (idx, Some(kind)),
    {
        self.idx = idx;
        self.kind = Some(kind);
    }

    pub fn is_none(&self) -> (r: bool)
        ensures
            r == (self@.1 is None),
    {
        match self.kind {
            Some(_) => false,
            None => true,
        }
    }
}

} // verus!
