//! Bracket depth and the choice of the operator at which a slice is split.

use vstd::prelude::*;
use crate::token::ParseToken;
use crate::types::{holding, Operator, ParseOperator};

verus! {

/// What a token adds to the nesting depth.
pub open spec fn delta(t: ParseToken) -> int {
    match t {
        ParseToken::Open(_) => 1,
        ParseToken::Close(_) => -1,
        _ => 0,
    }
}

/// The nesting depth in front of token `i`: the opening brackets among the
/// first `i` tokens minus the closing ones.
pub open spec fn depth(s: Seq<ParseToken>, i: int) -> int
    decreases i,
{
    if i <= 0 {
        0
    } else {
        depth(s, i - 1) + delta(s[i - 1])
    }
}

/// Every closing bracket closes an open one, and none stays open.
pub open spec fn balanced(s: Seq<ParseToken>) -> bool {
    &&& forall|i: int| 0 <= i <= s.len() ==> depth(s, i) >= 0
    &&& depth(s, s.len() as int) == 0
}

/// The first token is an opening bracket that stays open up to the last
/// token. In a balanced slice the last token then closes it.
pub open spec fn enclosed(s: Seq<ParseToken>) -> bool {
    &&& s.len() >= 2
    &&& s[0] is Open
    &&& forall|i: int| 0 < i < s.len() ==> depth(s, i) > 0
}

/// Token `i` is an operator outside all brackets, additive or not as
/// `additive` says.
pub open spec fn is_split(s: Seq<ParseToken>, i: int, additive: bool) -> bool {
    &&& 0 <= i < s.len()
    &&& depth(s, i) == 0
    &&& s[i] matches ParseToken::Op(p) && p.0.is_additive() == additive
}

/// The last index below `n` at which `is_split` holds.
pub open spec fn last_split(s: Seq<ParseToken>, n: int, additive: bool) -> Option<int>
    decreases n,
{
    if n <= 0 {
        None
    } else if is_split(s, n - 1, additive) {
        Some(n - 1)
    } else {
        last_split(s, n - 1, additive)
    }
}

/// The operator that binds weakest among the first `n` tokens: the last
/// additive operator outside all brackets, or without one the last
/// multiplicative operator outside all brackets.
pub open spec fn split_before(s: Seq<ParseToken>, n: int) -> Option<int> {
    match last_split(s, n, true) {
        Some(k) => Some(k),
        None => last_split(s, n, false),
    }
}

/// The index at which a slice is split into a left and a right operand.
pub open spec fn split_index(s: Seq<ParseToken>) -> Option<int> {
    split_before(s, s.len() as int)
}

/// The operator held by token `k`.
pub open spec fn operator_at(s: Seq<ParseToken>, k: int) -> Operator {
    match s[k] {
        ParseToken::Op(p) => p.0,
        _ => Operator::Plus,
    }
}

/// `split_before` as an index and the operator found there.
pub open spec fn found_before(s: Seq<ParseToken>, n: int) -> Option<(usize, Operator)> {
    match split_before(s, n) {
        Some(k) => Some((k as usize, operator_at(s, k))),
        None => None,
    }
}

/// `last_split` returns an index below `n` at which `is_split` holds, and
/// `is_split` holds nowhere between it and `n`.
pub proof fn lemma_last_split(s: Seq<ParseToken>, n: int, additive: bool)
    requires
        n <= s.len(),
    ensures
        match last_split(s, n, additive) {
            Some(k) => k < n && is_split(s, k, additive) && forall|j: int|
                k < j < n ==> !is_split(s, j, additive),
            None => forall|j: int| 0 <= j < n ==> !is_split(s, j, additive),
        },
    decreases n,
{
    if n > 0 && !is_split(s, n - 1, additive) {
        lemma_last_split(s, n - 1, additive);
    }
}

/// Token `j`, at or behind `skip`, is a closing bracket that brings the depth
/// back to what it was in front of `skip`.
pub open spec fn closes_at(s: Seq<ParseToken>, skip: int, j: int) -> bool {
    &&& skip <= j < s.len()
    &&& s[j] is Close
    &&& depth(s, j + 1) == depth(s, skip)
}

/// Some closing bracket at or behind `skip` brings the depth back to what it
/// was in front of `skip`: the bracket that opens at `skip` is closed.
pub open spec fn has_close(s: Seq<ParseToken>, skip: int) -> bool {
    exists|j: int| closes_at(s, skip, j)
}

/// The first closing bracket at or behind `skip` that brings the depth back
/// to what it was in front of `skip`.
pub open spec fn close_index(s: Seq<ParseToken>, skip: int) -> int {
    choose|j: int| closes_at(s, skip, j) && forall|k: int| skip <= k < j ==> !closes_at(s, skip, k)
}

/// Token `i`, in front of `idx`, is an opening bracket at the depth that is
/// reached behind `idx`.
pub open spec fn opens_at(s: Seq<ParseToken>, idx: int, i: int) -> bool {
    &&& 0 <= i < idx
    &&& s[i] is Open
    &&& depth(s, i) == depth(s, idx + 1)
}

/// Some opening bracket in front of `idx` stands at the depth that is reached
/// behind `idx`: the bracket that closes at `idx` was opened.
pub open spec fn has_open(s: Seq<ParseToken>, idx: int) -> bool {
    exists|i: int| opens_at(s, idx, i)
}

/// Finds the first closing bracket at or behind `skip` that brings the depth
/// back to what it was in front of `skip`.
pub fn find_close_idx(stream: &[ParseToken], skip: usize) -> (r: Option<usize>)
    ensures
        match r {
            Some(j) => has_close(stream@, skip as int) && j == close_index(stream@, skip as int),
            None => !has_close(stream@, skip as int),
        },
        r matches Some(j) ==> closes_at(stream@, skip as int, j as int),
{
    let ghost s = stream@;
    let len = stream.len();
    if skip >= len {
        return None;
    }
    let mut opened: usize = 0;
    let mut closed: usize = 0;
    let mut i: usize = skip;
    while i < len
        invariant
            s == stream@,
            len == s.len(),
            skip <= i <= len,
            opened <= i - skip,
            closed <= i - skip,
            depth(s, i as int) - depth(s, skip as int) == opened - closed,
            forall|k: int| skip <= k < i ==> !closes_at(s, skip as int, k),
        decreases len - i,
    {
        match stream[i] {
            ParseToken::Open(_) => {
                opened += 1;
            },
            ParseToken::Close(_) => {
                closed += 1;
                if opened == closed {
                    proof {
                        let j = close_index(s, skip as int);
                        assert(closes_at(s, skip as int, i as int));
                        assert(closes_at(s, skip as int, j) && forall|k: int|
                            skip <= k < j ==> !closes_at(s, skip as int, k));
                    }
                    return Some(i);
                }
            },
            _ => {},
        }
        i += 1;
    }
    None
}

/// Finds the last opening bracket in front of `idx` that stands at the depth
/// reached behind `idx`.
pub fn find_open_idx(stream: &[ParseToken], idx: usize) -> (r: Option<usize>)
    requires
        idx < stream@.len(),
    ensures
        match r {
            Some(i) => opens_at(stream@, idx as int, i as int) && forall|k: int|
                i < k < idx ==> !opens_at(stream@, idx as int, k),
            None => !has_open(stream@, idx as int),
        },
{
    let ghost s = stream@;
    let (mut opened, mut closed): (usize, usize) = match stream[idx] {
        ParseToken::Open(_) => (1, 0),
        ParseToken::Close(_) => (0, 1),
        _ => (0, 0),
    };
    let mut i: usize = idx;
    while i > 0
        invariant
            s == stream@,
            idx < s.len(),
            i <= idx,
            opened <= idx - i + 1,
            closed <= idx - i + 1,
            depth(s, idx + 1) - depth(s, i as int) == opened - closed,
            forall|k: int| i <= k < idx ==> !opens_at(s, idx as int, k),
        decreases i,
    {
        i -= 1;
        assert(depth(s, i + 1) == depth(s, i as int) + delta(s[i as int]));
        match stream[i] {
            ParseToken::Open(_) => {
                opened += 1;
                if opened == closed {
                    return Some(i);
                }
            },
            ParseToken::Close(_) => {
                closed += 1;
            },
            _ => {},
        }
    }
    None
}

/// What one scan of a slice finds. Where the brackets are not balanced, no
/// enclosure and no operator is reported.
pub struct Scan {
    /// The brackets are balanced.
    pub balanced: bool,
    /// One pair of brackets encloses the whole slice.
    pub enclosed: bool,
    /// The operator to split at, if there is one.
    pub split: ParseOperator,
}

/// Scans a slice once from left to right. Bracketed parts are passed over by
/// counting depth; an additive operator outside brackets always replaces the
/// recorded one, a multiplicative one only another multiplicative one.
pub fn scan(stream: &[ParseToken]) -> (r: Scan)
    ensures
        r.balanced == balanced(stream@),
        r.enclosed == (balanced(stream@) && enclosed(stream@)),
        r.split@ == holding(
            if balanced(stream@) {
                found_before(stream@, stream@.len() as int)
            } else {
                None
            },
        ),
{
    let ghost s = stream@;
    let len = stream.len();
    let mut level: usize = 0;
    let mut touched = false;
    let mut op = ParseOperator::new();
    let mut i: usize = 0;
    while i < len
        invariant
            s == stream@,
            len == s.len(),
            i <= len,
            level == depth(s, i as int),
            level <= i,
            forall|j: int| 0 <= j <= i ==> depth(s, j) >= 0,
            touched ==> exists|j: int| 0 < j < len && depth(s, j) == 0,
            !touched ==> forall|j: int| 0 < j <= i && j < len ==> depth(s, j) > 0,
            op@ == holding(found_before(s, i as int)),
        decreases len - i,
    {
        proof {
            lemma_last_split(s, i as int, true);
            lemma_last_split(s, i as int, false);
        }
        match stream[i] {
            ParseToken::Open(_) => {
                level += 1;
            },
            ParseToken::Close(_) => {
                if level == 0 {
                    assert(depth(s, i + 1) < 0);
                    return Scan { balanced: false, enclosed: false, split: ParseOperator::new() };
                }
                level -= 1;
            },
            ParseToken::Op(p) => {
                if level == 0 {
                    if op.is_none() {
                        op.set(i, p.0);
                    } else {
                        match p.0 {
                            Operator::Plus | Operator::Minus => op.set(i, p.0),
                            Operator::Multiply | Operator::Divide => {
                                match op.kind() {
                                    Operator::Multiply | Operator::Divide => op.set(i, p.0),
                                    _ => {},
                                }
                            },
                        }
                    }
                }
            },
            ParseToken::Number(_) => {},
        }
        i += 1;
        if level == 0 && i < len {
            touched = true;
        }
    }
    if level != 0 {
        return Scan { balanced: false, enclosed: false, split: ParseOperator::new() };
    }
    let enclosed = len >= 2 && !touched && match stream[0] {
        ParseToken::Open(_) => true,
        _ => false,
    };
    Scan { balanced: true, enclosed, split: op }
}

} // verus!
