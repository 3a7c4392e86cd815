//! The expression that stands for a numeral has the value that the places of
//! its morphemes give.

use vstd::prelude::*;
use crate::error::ErrorView;
use crate::parse::node::{build_node, ParseNode};
use crate::parse::scan::{
    balanced, depth, enclosed, is_split, last_split, lemma_last_split, operator_at, split_index,
};
use crate::parse::tree::{build_tree, ParseTree, ValueError};
use crate::stream::numeral::{
    expression_value, extend, first_part, has_plain_units, later_part, lemma_reduce_fails_on,
    numeral_value, part_at, read_part, reading, reduce, tokens_value, Part, Reading,
};
use crate::token::{ParseToken, WordToken};
use crate::types::{Operator, StartEnd};

verus! {

/// A tree of sums and products of numbers from one on.
pub open spec fn grows(t: ParseTree) -> bool
    decreases t,
{
    match t {
        ParseTree::Number(n) => 1 <= n <= i64::MAX,
        ParseTree::Node(node) => (node.operator is Plus || node.operator is Multiply) && grows(
            *node.left,
        ) && grows(*node.right),
    }
}

/// The value of a tree of sums and products, without bound.
pub open spec fn sum_value(t: ParseTree) -> int
    decreases t,
{
    match t {
        ParseTree::Number(n) => n as int,
        ParseTree::Node(node) => if node.operator is Plus {
            sum_value(*node.left) + sum_value(*node.right)
        } else {
            sum_value(*node.left) * sum_value(*node.right)
        },
    }
}

/// A tree of sums and products of numbers from one on has its unbounded
/// value where that fits 63 bits, and overflows where it does not.
proof fn lemma_growing_value(t: ParseTree)
    requires
        grows(t),
    ensures
        sum_value(t) >= 1,
        t.integer_value() == if sum_value(t) <= i64::MAX {
            Ok::<int, ValueError>(sum_value(t))
        } else {
            Err::<int, ValueError>(ValueError::Overflow)
        },
    decreases t,
{
    match t {
        ParseTree::Number(n) => {},
        ParseTree::Node(node) => {
            lemma_growing_value(*node.left);
            lemma_growing_value(*node.right);
            let l = sum_value(*node.left);
            let r = sum_value(*node.right);
            if node.operator is Multiply {
                assert(l * r >= l && l * r >= r) by (nonlinear_arith)
                    requires
                        l >= 1,
                        r >= 1,
                ;
            }
        },
    }
}

/// The plus sign of a numeral's expression.
pub open spec fn plus(range: StartEnd) -> ParseToken {
    ParseToken::Op((Operator::Plus, range))
}

/// The times sign of a numeral's expression.
pub open spec fn times(range: StartEnd) -> ParseToken {
    ParseToken::Op((Operator::Multiply, range))
}

/// A number of a numeral's expression.
pub open spec fn number(n: i64, range: StartEnd) -> ParseToken {
    ParseToken::Number((n, range))
}

/// The tokens are numbers and operators only.
pub open spec fn plain(s: Seq<ParseToken>) -> bool {
    forall|i: int| 0 <= i < s.len() ==> (#[trigger] s[i]) is Number || s[i] is Op
}

/// The tokens are numbers and multiplicative operators only.
pub open spec fn product_only(s: Seq<ParseToken>) -> bool {
    &&& plain(s)
    &&& forall|i: int|
        0 <= i < s.len() ==> !(#[trigger] s[i] matches ParseToken::Op(p) && p.0.is_additive())
}

/// The tokens have a tree of sums and products of numbers from one on, whose
/// value without bound is `v`.
pub open spec fn has_value(s: Seq<ParseToken>, v: int) -> bool {
    build_tree(s) matches Ok(t) && grows(t) && sum_value(t) == v
}

/// Without brackets the depth is zero everywhere.
proof fn lemma_plain_depth(s: Seq<ParseToken>, i: int)
    requires
        plain(s),
        0 <= i <= s.len(),
    ensures
        depth(s, i) == 0,
    decreases i,
{
    if i > 0 {
        lemma_plain_depth(s, i - 1);
        assert(s[i - 1] is Number || s[i - 1] is Op);
    }
}

/// Tokens without brackets are balanced, and no brackets enclose them.
proof fn lemma_plain_balanced(s: Seq<ParseToken>)
    requires
        plain(s),
    ensures
        balanced(s),
        !enclosed(s),
        forall|i: int| 0 <= i <= s.len() ==> depth(s, i) == 0,
{
    assert forall|i: int| 0 <= i <= s.len() implies depth(s, i) == 0 by {
        lemma_plain_depth(s, i);
    }
    if s.len() > 0 {
        assert(s[0] is Number || s[0] is Op);
    }
}

/// One number from one on has itself as its value.
proof fn lemma_number_has_value(n: i64, range: StartEnd)
    requires
        1 <= n,
    ensures
        product_only(seq![number(n, range)]),
        has_value(seq![number(n, range)], n as int),
{
    let s = seq![number(n, range)];
    assert(s[0] == number(n, range));
}

/// Tokens with a value, a plus sign and a product with a value have the sum
/// of the two values.
proof fn lemma_sum_has_value(
    s: Seq<ParseToken>,
    p: Seq<ParseToken>,
    range: StartEnd,
    a: int,
    b: int,
)
    requires
        plain(s),
        s.len() >= 1,
        product_only(p),
        p.len() >= 1,
        has_value(s, a),
        has_value(p, b),
    ensures
        plain(s + seq![plus(range)] + p),
        has_value(s + seq![plus(range)] + p, a + b),
{
    let t = s + seq![plus(range)] + p;
    let x = s.len() as int;
    let n = t.len() as int;
    assert forall|i: int| 0 <= i < n implies (#[trigger] t[i]) is Number || t[i] is Op by {
        if i < x {
            assert(t[i] == s[i]);
        } else if i > x {
            assert(t[i] == p[i - x - 1]);
        }
    }
    lemma_plain_balanced(t);
    assert(t[x] == plus(range));
    assert(is_split(t, x, true));
    assert forall|j: int| x < j < n implies !is_split(t, j, true) by {
        assert(t[j] == p[j - x - 1]);
    }
    lemma_last_split(t, n, true);
    assert(split_index(t) == Some(x));
    assert(t.subrange(0, x) =~= s);
    assert(t.subrange(x + 1, n) =~= p);
    assert(operator_at(t, x) == Operator::Plus);
    let left = build_tree(s)->Ok_0;
    let right = build_tree(p)->Ok_0;
    assert(build_node(t) == Ok::<ParseNode, ErrorView>(
        ParseNode { operator: Operator::Plus, left: Box::new(left), right: Box::new(right) },
    ));
}

/// A product with a value, a times sign and a number from one on have the
/// product of the value and the number.
proof fn lemma_product_has_value(p: Seq<ParseToken>, range: StartEnd, c: i64, b: int)
    requires
        product_only(p),
        p.len() >= 1,
        has_value(p, b),
        1 <= c,
    ensures
        product_only(p + seq![times(range), number(c, range)]),
        has_value(p + seq![times(range), number(c, range)], b * c),
{
    let t = p + seq![times(range), number(c, range)];
    let x = p.len() as int;
    let n = t.len() as int;
    assert(t[x] == times(range));
    assert(t[x + 1] == number(c, range));
    assert forall|i: int| 0 <= i < n implies ((#[trigger] t[i]) is Number || t[i] is Op) && !(t[i] matches ParseToken::Op(
        q,
    ) && q.0.is_additive()) by {
        if i < x {
            assert(t[i] == p[i]);
        }
    }
    lemma_plain_balanced(t);
    lemma_last_split(t, n, true);
    assert(last_split(t, n, true) is None);
    assert(is_split(t, x, false));
    assert forall|j: int| x < j < n implies !is_split(t, j, false) by {}
    lemma_last_split(t, n, false);
    assert(split_index(t) == Some(x));
    assert(t.subrange(0, x) =~= p);
    assert(t.subrange(x + 1, n) =~= seq![number(c, range)]);
    lemma_number_has_value(c, range);
    assert(operator_at(t, x) == Operator::Multiply);
    let left = build_tree(p)->Ok_0;
    let right = build_tree(seq![number(c, range)])->Ok_0;
    assert(build_node(t) == Ok::<ParseNode, ErrorView>(
        ParseNode { operator: Operator::Multiply, left: Box::new(left), right: Box::new(right) },
    ));
}

/// Tokens without brackets that end in a plus sign have no tree.
proof fn lemma_trailing_plus_has_no_tree(s: Seq<ParseToken>, range: StartEnd)
    requires
        plain(s),
        s.len() >= 1,
    ensures
        build_tree(s.push(plus(range))) is Err,
{
    let t = s.push(plus(range));
    let n = t.len() as int;
    assert(t[n - 1] == plus(range));
    if n >= 3 {
        assert forall|i: int| 0 <= i < n implies (#[trigger] t[i]) is Number || t[i] is Op by {
            if i < n - 1 {
                assert(t[i] == s[i]);
            }
        }
        lemma_plain_balanced(t);
        assert(is_split(t, n - 1, true));
        lemma_last_split(t, n, true);
        assert(split_index(t) == Some(n - 1));
        assert(t.subrange(n, n) =~= Seq::<ParseToken>::empty());
        assert(build_tree(t.subrange(n - 1 + 1, n)) is Err);
        assert(build_node(t) is Err);
    }
}

/// The tokens in front of a waiting plus sign: the finished terms, a plus
/// sign and the growing term, or the growing term alone.
pub open spec fn core_of(s: Seq<ParseToken>, p: Seq<ParseToken>, range: StartEnd) -> Seq<
    ParseToken,
> {
    if s.len() == 0 {
        p
    } else {
        s + seq![plus(range)] + p
    }
}

/// The tokens stand for the number read so far: `s` holds the terms that
/// are complete and has their sum as its value, `p` holds the growing term
/// and has it as its value, and a plus sign waits at the end where `joined`
/// says so.
pub open spec fn shaped(
    tokens: Seq<ParseToken>,
    s: Seq<ParseToken>,
    p: Seq<ParseToken>,
    r: Reading,
    joined: bool,
    range: StartEnd,
) -> bool {
    &&& plain(s)
    &&& product_only(p)
    &&& p.len() >= 1
    &&& r.done >= 0
    &&& r.term >= 1
    &&& s.len() == 0 ==> r.done == 0
    &&& s.len() > 0 ==> has_value(s, r.done)
    &&& has_value(p, r.term)
    &&& plain(core_of(s, p, range))
    &&& has_value(core_of(s, p, range), r.done + r.term)
    &&& tokens == if joined {
        core_of(s, p, range).push(plus(range))
    } else {
        core_of(s, p, range)
    }
}

/// One number stands for itself.
proof fn lemma_shaped_first(v: i64, range: StartEnd)
    requires
        1 <= v,
    ensures
        shaped(
            seq![number(v, range)],
            Seq::empty(),
            seq![number(v, range)],
            Reading { done: 0, term: v as int },
            false,
            range,
        ),
{
    lemma_number_has_value(v, range);
}

/// A number behind a plus sign begins a new term.
proof fn lemma_shaped_new_term(
    tokens: Seq<ParseToken>,
    s: Seq<ParseToken>,
    p: Seq<ParseToken>,
    r: Reading,
    joined: bool,
    range: StartEnd,
    v: i64,
)
    requires
        shaped(tokens, s, p, r, joined, range),
        1 <= v,
    ensures
        shaped(
            (if joined {
                tokens
            } else {
                tokens.push(plus(range))
            }).push(number(v, range)),
            core_of(s, p, range),
            seq![number(v, range)],
            Reading { done: r.done + r.term, term: v as int },
            false,
            range,
        ),
{
    let core = core_of(s, p, range);
    let next = seq![number(v, range)];
    lemma_number_has_value(v, range);
    lemma_sum_has_value(core, next, range, r.done + r.term, v as int);
    assert(core.push(plus(range)).push(number(v, range)) =~= core + seq![plus(range)] + next);
}

/// A factor multiplies the growing term.
proof fn lemma_shaped_times(
    tokens: Seq<ParseToken>,
    s: Seq<ParseToken>,
    p: Seq<ParseToken>,
    r: Reading,
    range: StartEnd,
    c: i64,
)
    requires
        shaped(tokens, s, p, r, false, range),
        1 <= c,
    ensures
        shaped(
            tokens.push(times(range)).push(number(c, range)),
            s,
            p + seq![times(range), number(c, range)],
            Reading { done: r.done, term: r.term * c },
            false,
            range,
        ),
{
    let grown = p + seq![times(range), number(c, range)];
    lemma_product_has_value(p, range, c, r.term);
    assert(r.term * c >= 1) by (nonlinear_arith)
        requires
            r.term >= 1,
            c >= 1,
    ;
    if s.len() > 0 {
        lemma_sum_has_value(s, grown, range, r.done, r.term * c);
        assert(tokens.push(times(range)).push(number(c, range)) =~= s + seq![plus(range)]
            + grown);
    } else {
        assert(tokens.push(times(range)).push(number(c, range)) =~= grown);
    }
}

/// A thousand makes one term of everything read so far.
proof fn lemma_shaped_thousand(v: i64, range: StartEnd)
    requires
        1 <= v,
    ensures
        shaped(
            seq![number(v, range), times(range), number(1000, range)],
            Seq::empty(),
            seq![number(v, range), times(range), number(1000, range)],
            Reading { done: 0, term: v * 1000 },
            false,
            range,
        ),
{
    lemma_number_has_value(v, range);
    lemma_product_has_value(seq![number(v, range)], range, 1000, v as int);
    assert(seq![number(v, range)] + seq![times(range), number(1000, range)] =~= seq![
        number(v, range),
        times(range),
        number(1000, range),
    ]);
}

/// The tokens that stand for a number read so far have that number as their
/// value, unless a plus sign waits at their end or the number does not fit
/// 63 bits.
proof fn lemma_shaped_value(
    tokens: Seq<ParseToken>,
    s: Seq<ParseToken>,
    p: Seq<ParseToken>,
    r: Reading,
    joined: bool,
    range: StartEnd,
)
    requires
        shaped(tokens, s, p, r, joined, range),
    ensures
        tokens_value(tokens) == if joined || r.done + r.term > i64::MAX {
            None
        } else {
            Some((r.done + r.term) as i64)
        },
{
    let core = core_of(s, p, range);
    if joined {
        lemma_trailing_plus_has_no_tree(core, range);
    } else {
        lemma_growing_value(build_tree(core)->Ok_0);
    }
}

/// What a part says of the morphemes around it: a bare number stands
/// behind `und` and nothing else does, only `und` itself joins, and every
/// number and factor is one or more.
proof fn lemma_part_facts(prev: WordToken, cur: WordToken, next: Option<WordToken>)
    requires
        later_part(prev, cur, next) is Some,
        cur matches WordToken::Number(n) ==> 2 <= n <= 9,
    ensures
        ({
            let p = later_part(prev, cur, next)->0;
            &&& p is Value <==> prev is Und
            &&& p is Join <==> cur is Und
            &&& p matches Part::Value(v) ==> 1 <= v
            &&& p matches Part::Add(v) ==> 1 <= v
            &&& p matches Part::Times(c) ==> 1 <= c
        }),
{
}

/// What the first part says: it is a bare number of one or more.
proof fn lemma_first_part_facts(cur: WordToken)
    requires
        first_part(cur) is Some,
        cur matches WordToken::Number(n) ==> 2 <= n <= 9,
    ensures
        first_part(cur)->0 matches Part::Value(v) && 1 <= v,
        !(cur is Und),
{
}

/// The tokens after one more part stand for the number read after it, and
/// where a thousand finds no value they are none and the number is too
/// large.
proof fn lemma_extend_reads(
    tokens: Seq<ParseToken>,
    s: Seq<ParseToken>,
    p: Seq<ParseToken>,
    r: Reading,
    joined: bool,
    range: StartEnd,
    part: Part,
) -> (sp: (Seq<ParseToken>, Seq<ParseToken>))
    requires
        shaped(tokens, s, p, r, joined, range),
        part is Value <==> joined,
        part matches Part::Value(v) ==> 1 <= v,
        part matches Part::Add(v) ==> 1 <= v,
        part matches Part::Times(c) ==> 1 <= c,
    ensures
        r.done + r.term <= read_part(r, part).done + read_part(r, part).term,
        match extend(tokens, part, range) {
            Some(longer) => shaped(longer, sp.0, sp.1, read_part(r, part), part is Join, range),
            None => read_part(r, part).done + read_part(r, part).term > i64::MAX,
        },
{
    match part {
        Part::Value(v) => {
            lemma_shaped_new_term(tokens, s, p, r, joined, range, v);
            (core_of(s, p, range), seq![number(v, range)])
        },
        Part::Join => (s, p),
        Part::Add(v) => {
            lemma_shaped_new_term(tokens, s, p, r, joined, range, v);
            (core_of(s, p, range), seq![number(v, range)])
        },
        Part::Times(c) => {
            lemma_shaped_times(tokens, s, p, r, range, c);
            assert(r.term * c >= r.term) by (nonlinear_arith)
                requires
                    r.term >= 1,
                    c >= 1,
            ;
            (s, p + seq![times(range), number(c, range)])
        },
        Part::Thousand => {
            lemma_shaped_value(tokens, s, p, r, joined, range);
            let total = r.done + r.term;
            if total <= i64::MAX {
                lemma_shaped_thousand(total as i64, range);
                (Seq::empty(), seq![number(total as i64, range), times(range), number(1000, range)])
            } else {
                (s, p)
            }
        },
    }
}

/// The tokens of the first `n` morphemes stand for the number read from
/// them, and where they are none the number is too large.
proof fn lemma_reduce_reads(ms: Seq<WordToken>, n: int, range: StartEnd) -> (sp: (
    Seq<ParseToken>,
    Seq<ParseToken>,
))
    requires
        has_plain_units(ms),
        1 <= n <= ms.len(),
        forall|i: int| 0 <= i < n ==> (#[trigger] part_at(ms, i)) is Some,
    ensures
        reading(ms, n).done >= 0,
        reading(ms, n).term >= 0,
        match reduce(ms, n, range) {
            Some(tokens) => shaped(tokens, sp.0, sp.1, reading(ms, n), ms[n - 1] is Und, range),
            None => reading(ms, n).done + reading(ms, n).term > i64::MAX,
        },
    decreases n,
{
    let part = part_at(ms, n - 1)->0;
    assert(part_at(ms, n - 1) is Some);
    assert(ms[n - 1] matches WordToken::Number(k) ==> 2 <= k <= 9);
    if n == 1 {
        lemma_first_part_facts(ms[0]);
        let v = part->Value_0;
        lemma_shaped_first(v, range);
        assert(reduce(ms, 0, range) == Some(Seq::<ParseToken>::empty()));
        assert(Seq::<ParseToken>::empty().push(number(v, range)) =~= seq![number(v, range)]);
        (Seq::empty(), seq![number(v, range)])
    } else {
        let before = lemma_reduce_reads(ms, n - 1, range);
        let next = if n < ms.len() {
            Some(ms[n])
        } else {
            None
        };
        lemma_part_facts(ms[n - 2], ms[n - 1], next);
        lemma_reading_grows(reading(ms, n - 1), part);
        match reduce(ms, n - 1, range) {
            Some(tokens) => {
                lemma_extend_reads(
                    tokens,
                    before.0,
                    before.1,
                    reading(ms, n - 1),
                    ms[n - 2] is Und,
                    range,
                    part,
                )
            },
            None => before,
        }
    }
}

/// A number read so far never gets smaller with one more part.
proof fn lemma_reading_grows(r: Reading, part: Part)
    requires
        r.done >= 0,
        r.term >= 0,
        part matches Part::Value(v) ==> 1 <= v,
        part matches Part::Add(v) ==> 1 <= v,
        part matches Part::Times(c) ==> 1 <= c,
    ensures
        r.done + r.term <= read_part(r, part).done + read_part(r, part).term,
        read_part(r, part).done >= 0,
        read_part(r, part).term >= 0,
{
    match part {
        Part::Times(c) => {
            assert(r.term * c >= r.term) by (nonlinear_arith)
                requires
                    r.term >= 0,
                    c >= 1,
            ;
        },
        _ => {},
    }
}

/// The expression that stands for the morphemes of a compound word has the
/// value that their places give: one number where they are a numeral that
/// fits 63 bits, and none otherwise.
pub proof fn lemma_expression_has_place_value(ms: Seq<WordToken>, range: StartEnd)
    requires
        has_plain_units(ms),
        ms.len() >= 1,
    ensures
        expression_value(ms, range) == numeral_value(ms),
{
    let n = ms.len() as int;
    if forall|i: int| 0 <= i < n ==> (#[trigger] part_at(ms, i)) is Some {
        let sp = lemma_reduce_reads(ms, n, range);
        match reduce(ms, n, range) {
            Some(tokens) => {
                lemma_shaped_value(tokens, sp.0, sp.1, reading(ms, n), ms[n - 1] is Und, range);
            },
            None => {},
        }
    } else {
        let i = choose|i: int| 0 <= i < n && !((#[trigger] part_at(ms, i)) is Some);
        assert(reduce(ms, i + 1, range) is None);
        lemma_reduce_fails_on(ms, i + 1, n, range);
    }
}

} // verus!
