//! Well-formed streams of tokens, and the proof that each of them has a tree.

use vstd::prelude::*;
use crate::error::ErrorView;
use crate::parse::node::{build_node, ParseNode};
use crate::parse::scan::{
    balanced, closes_at, delta, depth, enclosed, has_close, has_open, is_split,
    lemma_last_split, opens_at, operator_at, split_index,
};
use crate::parse::tree::{build_tree, interior, ParseTree};
use crate::stream::parse::{complaint_at, valid};
use crate::token::ParseToken;
use crate::types::Operator;

verus! {

/// Token `b` may stand directly behind token `a`: an operand or an opening
/// bracket behind an operator, an operator or a closing bracket behind an
/// operand, and a minus sign also behind an opening bracket.
pub open spec fn may_follow(a: ParseToken, b: ParseToken) -> bool {
    match a {
        ParseToken::Number(_) => b is Op || b is Close,
        ParseToken::Op(_) => b is Number || b is Open,
        ParseToken::Open(_) => b is Number || b is Open || b.is_op(Operator::Minus),
        ParseToken::Close(_) => b is Op || b is Close,
    }
}

/// The token may begin an expression.
pub open spec fn may_begin(t: ParseToken) -> bool {
    t is Number || t is Open || t.is_op(Operator::Minus)
}

/// The token may end an expression.
pub open spec fn may_end(t: ParseToken) -> bool {
    t is Number || t is Close
}

/// The stream is an expression: it is not empty, its brackets are balanced,
/// it begins and ends as an expression may, and every token may follow the
/// one in front of it.
pub open spec fn well_formed(s: Seq<ParseToken>) -> bool {
    &&& s.len() > 0
    &&& balanced(s)
    &&& may_begin(s[0])
    &&& may_end(s.last())
    &&& forall|i: int| 0 <= i < s.len() - 1 ==> may_follow(s[i], #[trigger] s[i + 1])
}

/// The depth inside a part of a stream is the depth in the stream, counted
/// from where the part begins.
proof fn lemma_depth_of_part(s: Seq<ParseToken>, a: int, b: int, i: int)
    requires
        0 <= a <= b <= s.len(),
        0 <= i <= b - a,
    ensures
        depth(s.subrange(a, b), i) == depth(s, a + i) - depth(s, a),
    decreases i,
{
    if i > 0 {
        lemma_depth_of_part(s, a, b, i - 1);
        assert(s.subrange(a, b)[i - 1] == s[a + i - 1]);
    }
}

/// Where the depth falls from above a level to the level or below it, a
/// closing bracket in between brings it to that level.
proof fn lemma_descent(s: Seq<ParseToken>, from: int, to: int, level: int) -> (j: int)
    requires
        0 <= from < to <= s.len(),
        depth(s, from) > level,
        depth(s, to) <= level,
    ensures
        from <= j < to,
        s[j] is Close,
        depth(s, j + 1) == level,
        depth(s, j) == level + 1,
    decreases to - from,
{
    if depth(s, to - 1) > level {
        to - 1
    } else {
        lemma_descent(s, from, to - 1, level)
    }
}

/// Where the depth has risen from a level or below it to above the level, an
/// opening bracket in between stands at that level.
proof fn lemma_ascent(s: Seq<ParseToken>, from: int, to: int, level: int) -> (i: int)
    requires
        0 <= from < to <= s.len(),
        depth(s, from) <= level,
        depth(s, to) > level,
    ensures
        from <= i < to,
        s[i] is Open,
        depth(s, i) == level,
    decreases to - from,
{
    if depth(s, to - 1) <= level {
        to - 1
    } else {
        lemma_ascent(s, from, to - 1, level)
    }
}

/// In a balanced stream every opening bracket is closed and every closing
/// bracket was opened.
pub proof fn lemma_balanced_brackets_have_partners(s: Seq<ParseToken>, idx: int)
    requires
        balanced(s),
        0 <= idx < s.len(),
    ensures
        s[idx] is Open ==> has_close(s, idx),
        s[idx] is Close ==> has_open(s, idx),
{
    assert(depth(s, idx + 1) == depth(s, idx) + delta(s[idx]));
    if s[idx] is Open {
        let j = lemma_descent(s, idx + 1, s.len() as int, depth(s, idx));
        assert(closes_at(s, idx, j));
    }
    if s[idx] is Close {
        assert(depth(s, 0) == 0);
        assert(depth(s, idx + 1) >= 0);
        let i = lemma_ascent(s, 0, idx, depth(s, idx + 1));
        assert(opens_at(s, idx, i));
    }
}

/// A well-formed stream passes validation.
pub proof fn lemma_well_formed_is_valid(s: Seq<ParseToken>)
    requires
        well_formed(s),
    ensures
        valid(s),
{
    assert forall|i: int| 0 <= i < s.len() implies complaint_at(s, i) is None by {
        lemma_balanced_brackets_have_partners(s, i);
        if i > 0 {
            assert(may_follow(s[i - 1], s[i - 1 + 1]));
        }
        if i + 1 < s.len() {
            assert(may_follow(s[i], s[i + 1]));
        }
    }
}

/// Where every closing bracket was opened, the depth never falls below zero.
proof fn lemma_depth_stays_above_zero(s: Seq<ParseToken>, i: int)
    requires
        forall|k: int| 0 <= k < s.len() && s[k] is Close ==> has_open(s, k),
        0 <= i <= s.len(),
    ensures
        depth(s, i) >= 0,
    decreases i,
{
    if i > 0 {
        lemma_depth_stays_above_zero(s, i - 1);
        if s[i - 1] is Close {
            assert(has_open(s, i - 1));
            let j = choose|j: int| #[trigger] opens_at(s, i - 1, j);
            lemma_depth_stays_above_zero(s, j);
        }
    }
}

/// Where every opening bracket is closed, the depth at the end is the least
/// from any offset on.
proof fn lemma_depth_ends_lowest(s: Seq<ParseToken>, i: int)
    requires
        forall|k: int| 0 <= k < s.len() && s[k] is Open ==> has_close(s, k),
        0 <= i <= s.len(),
    ensures
        depth(s, s.len() as int) <= depth(s, i),
    decreases s.len() - i,
{
    if i < s.len() {
        lemma_depth_ends_lowest(s, i + 1);
        assert(depth(s, i + 1) == depth(s, i) + delta(s[i]));
        if s[i] is Open {
            assert(has_close(s, i));
            let j = choose|j: int| #[trigger] closes_at(s, i, j);
            lemma_depth_ends_lowest(s, j + 1);
        }
    }
}

/// The brackets of a stream that passes validation are balanced.
pub proof fn lemma_valid_is_balanced(s: Seq<ParseToken>)
    requires
        valid(s),
    ensures
        balanced(s),
{
    assert forall|k: int| 0 <= k < s.len() && s[k] is Close implies has_open(s, k) by {
        assert(complaint_at(s, k) is None);
    }
    assert forall|k: int| 0 <= k < s.len() && s[k] is Open implies has_close(s, k) by {
        assert(complaint_at(s, k) is None);
    }
    assert forall|i: int| 0 <= i <= s.len() implies depth(s, i) >= 0 by {
        lemma_depth_stays_above_zero(s, i);
    }
    lemma_depth_ends_lowest(s, 0);
    assert(depth(s, 0) == 0);
}

/// A part of a well-formed stream that begins and ends as an expression
/// may, and at whose two ends the stream has the same depth without falling
/// below it in between, is well-formed.
proof fn lemma_part_is_well_formed(s: Seq<ParseToken>, a: int, b: int)
    requires
        well_formed(s),
        0 <= a < b <= s.len(),
        may_begin(s[a]),
        may_end(s[b - 1]),
        depth(s, a) == depth(s, b),
        forall|i: int| a <= i <= b ==> depth(s, i) >= depth(s, a),
    ensures
        well_formed(s.subrange(a, b)),
{
    let p = s.subrange(a, b);
    assert forall|i: int| 0 <= i <= p.len() implies depth(p, i) >= 0 by {
        lemma_depth_of_part(s, a, b, i);
    }
    lemma_depth_of_part(s, a, b, b - a);
    assert forall|i: int| 0 <= i < p.len() - 1 implies may_follow(p[i], #[trigger] p[i + 1]) by {
        assert(may_follow(s[a + i], s[a + i + 1]));
    }
}

/// A well-formed stream of three or more tokens that no pair of brackets
/// encloses has an operator outside all brackets.
proof fn lemma_well_formed_has_split(s: Seq<ParseToken>)
    requires
        well_formed(s),
        s.len() >= 3,
        !enclosed(s),
    ensures
        split_index(s) is Some,
{
    let n = s.len() as int;
    assert(depth(s, 1) == depth(s, 0) + delta(s[0]));
    assert(depth(s, 0) == 0);
    let k: int = if s[0] is Op {
        0
    } else if s[0] is Number {
        assert(may_follow(s[0], s[0int + 1]));
        assert(depth(s, 2) == depth(s, 1) + delta(s[1]));
        1
    } else {
        let i = choose|i: int| 0 < i < s.len() && !(depth(s, i) > 0);
        assert(depth(s, i) == 0);
        assert(depth(s, i + 1) == depth(s, i) + delta(s[i]));
        assert(depth(s, i) == depth(s, i - 1) + delta(s[i - 1]));
        assert(may_follow(s[i - 1], s[i - 1 + 1]));
        if s[i] is Op {
            i
        } else {
            i - 1
        }
    };
    assert(s[k] is Op && depth(s, k) == 0 && 0 <= k < n);
    lemma_last_split(s, n, true);
    lemma_last_split(s, n, false);
    assert(is_split(s, k, true) || is_split(s, k, false));
}

/// Every well-formed stream has a tree.
pub proof fn lemma_well_formed_builds(s: Seq<ParseToken>)
    requires
        well_formed(s),
    ensures
        build_tree(s) is Ok,
    decreases s.len(),
{
    let n = s.len() as int;
    assert(depth(s, 0) == 0);
    assert(depth(s, 1) == depth(s, 0) + delta(s[0]));
    if n == 1 {
    } else if n == 2 {
        assert(may_follow(s[0], s[0int + 1]));
        assert(depth(s, 2) == depth(s, 1) + delta(s[1]));
    } else if enclosed(s) {
        assert(depth(s, n) == depth(s, n - 1) + delta(s[n - 1]));
        assert(may_follow(s[0], s[0int + 1]));
        assert(may_follow(s[n - 2], s[n - 2 + 1]));
        lemma_part_is_well_formed(s, 1, n - 1);
        lemma_well_formed_builds(interior(s));
    } else {
        lemma_well_formed_has_split(s);
        let k = split_index(s)->0;
        lemma_last_split(s, n, true);
        lemma_last_split(s, n, false);
        assert(s[k] is Op && depth(s, k) == 0 && 0 <= k < n);
        assert(depth(s, k + 1) == depth(s, k) + delta(s[k]));
        assert(k + 1 < n);
        assert(may_follow(s[k], s[k + 1]));
        lemma_part_is_well_formed(s, k + 1, n);
        lemma_well_formed_builds(s.subrange(k + 1, n));
        if k > 0 {
            assert(may_follow(s[k - 1], s[k - 1 + 1]));
            assert(depth(s, k) == depth(s, k - 1) + delta(s[k - 1]));
            lemma_part_is_well_formed(s, 0, k);
            lemma_well_formed_builds(s.subrange(0, k));
        }
        assert(build_node(s) is Ok);
    }
}

/// The depth in two streams joined together: that of the first up to its
/// end, and from there on its final depth plus that of the second.
pub proof fn lemma_depth_of_joined(u: Seq<ParseToken>, v: Seq<ParseToken>, i: int)
    requires
        0 <= i <= u.len() + v.len(),
    ensures
        depth(u + v, i) == if i <= u.len() {
            depth(u, i)
        } else {
            depth(u, u.len() as int) + depth(v, i - u.len())
        },
    decreases i,
{
    if i > 0 {
        lemma_depth_of_joined(u, v, i - 1);
        if i <= u.len() {
            assert((u + v)[i - 1] == u[i - 1]);
        } else {
            let j = i - u.len();
            assert((u + v)[i - 1] == v[j - 1]);
            assert(depth(v, j) == depth(v, j - 1) + delta(v[j - 1]));
            assert(depth(v, 0) == 0);
        }
    }
}

/// Two operands around an operator.
pub open spec fn joined(l: Seq<ParseToken>, sign: ParseToken, r: Seq<ParseToken>) -> Seq<
    ParseToken,
> {
    l + seq![sign] + r
}

/// The depth in two operands around an operator is the depth in the
/// operand that the offset lies in.
pub proof fn lemma_depth_in_joined(
    l: Seq<ParseToken>,
    sign: ParseToken,
    r: Seq<ParseToken>,
    i: int,
)
    requires
        balanced(l),
        sign is Op,
        0 <= i <= l.len() + 1 + r.len(),
    ensures
        depth(joined(l, sign, r), i) == if i <= l.len() {
            depth(l, i)
        } else {
            depth(r, i - l.len() - 1)
        },
{
    let x = l.len() as int;
    lemma_depth_of_joined(l + seq![sign], r, i);
    if i <= x + 1 {
        lemma_depth_of_joined(l, seq![sign], i);
    }
    lemma_depth_of_joined(l, seq![sign], x + 1);
    assert(depth(seq![sign], 1) == depth(seq![sign], 0) + delta(seq![sign][0]));
    assert(depth(seq![sign], 0) == 0);
}


/// The stream has an operator outside all brackets, additive or not as
/// `additive` says.
pub open spec fn has_split(s: Seq<ParseToken>, additive: bool) -> bool {
    exists|i: int| is_split(s, i, additive)
}

/// Sums and differences group from the left, and products and quotients
/// bind stronger: a stream that ends in an additive operator and a part
/// without additive operators outside brackets is split at that operator.
/// Its tree has the tree of all that stands in front of the operator on the
/// left and the tree of the part behind it on the right.
pub proof fn lemma_sum_splits_at_last_sign(
    l: Seq<ParseToken>,
    sign: ParseToken,
    r: Seq<ParseToken>,
)
    requires
        balanced(l),
        balanced(r),
        l.len() >= 1,
        r.len() >= 1,
        sign matches ParseToken::Op(p) && p.0.is_additive(),
        !has_split(r, true),
    ensures
        build_tree(joined(l, sign, r)) == match build_tree(l) {
            Err(e) => Err::<ParseTree, ErrorView>(e),
            Ok(left) => match build_tree(r) {
                Err(e) => Err(e),
                Ok(right) => Ok(
                    ParseTree::Node(
                        Box::new(
                            ParseNode {
                                operator: sign->Op_0.0,
                                left: Box::new(left),
                                right: Box::new(right),
                            },
                        ),
                    ),
                ),
            },
        },
{
    let s = joined(l, sign, r);
    let x = l.len() as int;
    let n = s.len() as int;
    assert forall|j: int| x < j < n implies !is_split(s, j, true) by {
        lemma_depth_in_joined(l, sign, r, j);
        assert(s[j] == r[j - x - 1]);
        assert(!is_split(r, j - x - 1, true));
    }
    lemma_joined_is_split(l, sign, r);
    assert(is_split(s, x, true));
    lemma_last_split(s, n, true);
    assert(split_index(s) == Some(x));
    assert(operator_at(s, x) == sign->Op_0.0);
    assert(build_tree(s) == match build_node(s) {
        Ok(node) => Ok::<ParseTree, ErrorView>(ParseTree::Node(Box::new(node))),
        Err(e) => Err(e),
    });
}

/// Products and quotients group from the left: a stream without additive
/// operators outside brackets that ends in a multiplicative operator and a
/// part without any operator outside brackets is split at that operator.
pub proof fn lemma_product_splits_at_last_sign(
    l: Seq<ParseToken>,
    sign: ParseToken,
    r: Seq<ParseToken>,
)
    requires
        balanced(l),
        balanced(r),
        l.len() >= 1,
        r.len() >= 1,
        sign matches ParseToken::Op(p) && !p.0.is_additive(),
        !has_split(l, true),
        !has_split(r, true),
        !has_split(r, false),
    ensures
        build_tree(joined(l, sign, r)) == match build_tree(l) {
            Err(e) => Err::<ParseTree, ErrorView>(e),
            Ok(left) => match build_tree(r) {
                Err(e) => Err(e),
                Ok(right) => Ok(
                    ParseTree::Node(
                        Box::new(
                            ParseNode {
                                operator: sign->Op_0.0,
                                left: Box::new(left),
                                right: Box::new(right),
                            },
                        ),
                    ),
                ),
            },
        },
{
    let s = joined(l, sign, r);
    let x = l.len() as int;
    let n = s.len() as int;
    assert forall|j: int| 0 <= j < n implies !is_split(s, j, true) by {
        lemma_depth_in_joined(l, sign, r, j);
        if j < x {
            assert(s[j] == l[j]);
            assert(!is_split(l, j, true));
        } else if j > x {
            assert(s[j] == r[j - x - 1]);
            assert(!is_split(r, j - x - 1, true));
        } else {
            assert(s[j] == sign);
        }
    }
    assert forall|j: int| x < j < n implies !is_split(s, j, false) by {
        lemma_depth_in_joined(l, sign, r, j);
        assert(s[j] == r[j - x - 1]);
        assert(!is_split(r, j - x - 1, false));
    }
    lemma_joined_is_split(l, sign, r);
    assert(is_split(s, x, false));
    lemma_last_split(s, n, true);
    lemma_last_split(s, n, false);
    assert(split_index(s) == Some(x));
    assert(operator_at(s, x) == sign->Op_0.0);
    assert(build_tree(s) == match build_node(s) {
        Ok(node) => Ok::<ParseTree, ErrorView>(ParseTree::Node(Box::new(node))),
        Err(e) => Err(e),
    });
}

/// Two balanced parts around an operator are balanced, no pair of brackets
/// encloses them, and the operator stands outside all brackets.
proof fn lemma_joined_is_split(l: Seq<ParseToken>, sign: ParseToken, r: Seq<ParseToken>)
    requires
        balanced(l),
        balanced(r),
        l.len() >= 1,
        r.len() >= 1,
        sign is Op,
    ensures
        balanced(joined(l, sign, r)),
        !enclosed(joined(l, sign, r)),
        joined(l, sign, r).len() >= 3,
        depth(joined(l, sign, r), l.len() as int) == 0,
        joined(l, sign, r)[l.len() as int] == sign,
        joined(l, sign, r).subrange(0, l.len() as int) == l,
        joined(l, sign, r).subrange(l.len() as int + 1, joined(l, sign, r).len() as int) == r,
{
    let s = joined(l, sign, r);
    let x = l.len() as int;
    let n = s.len() as int;
    assert forall|i: int| 0 <= i <= n implies depth(s, i) >= 0 by {
        lemma_depth_in_joined(l, sign, r, i);
    }
    lemma_depth_in_joined(l, sign, r, n);
    lemma_depth_in_joined(l, sign, r, x);
    assert(s[x] == sign);
    assert(s.subrange(0, x) =~= l);
    assert(s.subrange(x + 1, n) =~= r);
}

} // verus!
