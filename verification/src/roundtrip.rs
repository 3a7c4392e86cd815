//! Reading back what was printed: the proof that a printed tree of sums and
//! differences is read as the same tree.

use vstd::prelude::*;
use crate::error::ErrorView;
use crate::expression_tree;
use crate::parse::grammar::{
    joined, lemma_depth_in_joined, lemma_depth_of_joined, lemma_well_formed_is_valid, may_follow,
    well_formed,
};
use crate::parse::node::{glyph, ParseNode};
use crate::parse::node::build_node;
use crate::parse::scan::{
    balanced, delta, depth, enclosed, is_split, lemma_last_split, operator_at, split_index,
};
use crate::parse::tree::{build_tree, interior, ParseTree};
use crate::stream::input::{classified, classify, source_char, source_text};
use crate::stream::numeral::number_token;
use crate::stream::parse::{
    assembled, in_run, item_at, lemma_run_gives_one_item, run_end, span, symbol_token, Item,
};
use crate::stream::parse::assemble;
use crate::text::{
    all_digits, decimal, decimal_value, digit_char, digit_value, is_decimal_digit, literal_digits,
    unsigned_literal,
};
use crate::token::{InputToken, ParseToken};
use crate::types::Operator;
use crate::types::StartEnd;

verus! {

/// The decimal numeral of a number consists of digits and denotes the
/// number.
pub proof fn lemma_decimal_reads_back(n: nat)
    ensures
        decimal(n).len() >= 1,
        all_digits(decimal(n)),
        decimal_value(decimal(n)) == n,
    decreases n,
{
    if n >= 10 {
        lemma_decimal_reads_back(n / 10);
        let d = decimal(n / 10);
        let c = digit_char((n % 10) as int);
        assert(is_decimal_digit(c));
        assert(d.push(c).drop_last() == d);
        assert(digit_value(c) == n % 10);
        assert forall|i: int| 0 <= i < d.push(c).len() implies is_decimal_digit(
            #[trigger] d.push(c)[i],
        ) by {
            if i < d.len() {
                assert(d.push(c)[i] == d[i]);
            }
        }
    } else {
        let c = digit_char(n as int);
        assert(is_decimal_digit(c));
        assert(seq![c].drop_last() == Seq::<char>::empty());
        assert(decimal_value(seq![c].drop_last()) == 0);
    }
}

/// The decimal numeral of a number that fits 63 bits is read as that number.
proof fn lemma_decimal_is_number(n: nat, range: StartEnd)
    requires
        n <= i64::MAX,
    ensures
        number_token(decimal(n), range) == Some(ParseToken::Number((n as i64, range))),
{
    lemma_decimal_reads_back(n);
    let d = decimal(n);
    assert(is_decimal_digit(d[0]));
    assert(literal_digits(d) == d);
    assert(unsigned_literal(d) == Some(n as u64));
    assert((n as u64) as i64 == n as i64);
}

/// The leaves of the tree lie between `-(2^63 - 1)` and `2^63 - 1`, so that
/// their amounts are numbers of the input.
pub open spec fn leaves_fit(t: ParseTree) -> bool
    decreases t,
{
    match t {
        ParseTree::Number(n) => -i64::MAX <= n <= i64::MAX,
        ParseTree::Node(node) => leaves_fit(*node.left) && leaves_fit(*node.right),
    }
}

/// The tree can be read back from its printed form: its leaves are numbers
/// of the input, and its operators are plus and minus, whose printed signs
/// are input signs too.
pub open spec fn reads_back(t: ParseTree) -> bool
    decreases t,
{
    match t {
        ParseTree::Number(n) => -i64::MAX <= n <= i64::MAX,
        ParseTree::Node(node) => node.operator.is_additive() && reads_back(*node.left)
            && reads_back(*node.right),
    }
}

/// A tree that can be read back has leaves that are numbers of the input.
proof fn lemma_reads_back_fits(t: ParseTree)
    requires
        reads_back(t),
    ensures
        leaves_fit(t),
    decreases t,
{
    match t {
        ParseTree::Number(_) => {},
        ParseTree::Node(node) => {
            lemma_reads_back_fits(*node.left);
            lemma_reads_back_fits(*node.right);
        },
    }
}

/// The tree as it is read back: every negative leaf is zero minus its
/// amount.
pub open spec fn read_back(t: ParseTree) -> ParseTree
    decreases t,
{
    match t {
        ParseTree::Number(n) => if n < 0 {
            ParseTree::Node(
                Box::new(
                    ParseNode {
                        operator: Operator::Minus,
                        left: Box::new(ParseTree::Number(0)),
                        right: Box::new(ParseTree::Number((-n) as i128)),
                    },
                ),
            )
        } else {
            t
        },
        ParseTree::Node(node) => ParseTree::Node(
            Box::new(
                ParseNode {
                    operator: node.operator,
                    left: Box::new(read_back(*node.left)),
                    right: Box::new(read_back(*node.right)),
                },
            ),
        ),
    }
}

/// A tree whose leaves are numbers of the input has the same integer value
/// as it is read back.
pub proof fn lemma_read_back_keeps_value(t: ParseTree)
    requires
        leaves_fit(t),
    ensures
        read_back(t).integer_value() == t.integer_value(),
    decreases t,
{
    match t {
        ParseTree::Number(n) => {
            if n < 0 {
                let node = read_back(t)->Node_0;
                assert(node.left.integer_value() == Ok::<int, crate::parse::tree::ValueError>(0));
                assert(node.right.integer_value() == Ok::<int, crate::parse::tree::ValueError>(
                    -n as int,
                ));
            }
        },
        ParseTree::Node(node) => {
            lemma_read_back_keeps_value(*node.left);
            lemma_read_back_keeps_value(*node.right);
        },
    }
}

/// The tokens that the printed tree is read as where its text begins at
/// offset `a` of the input.
pub open spec fn printed_tokens(t: ParseTree, a: int) -> Seq<ParseToken>
    decreases t,
{
    match t {
        ParseTree::Number(n) => if n < 0 {
            let m = decimal((-n) as nat).len();
            seq![
                ParseToken::Open(span(a, a + 1)),
                ParseToken::Number((0, span(a + 1, a + 2))),
                ParseToken::Op((Operator::Minus, span(a + 2, a + 3))),
                ParseToken::Number(((-n) as i64, span(a + 3, a + 3 + m))),
                ParseToken::Close(span(a + 3 + m, a + 4 + m)),
            ]
        } else {
            seq![ParseToken::Number((n as i64, span(a, a + decimal(n as nat).len())))]
        },
        ParseTree::Node(node) => {
            let x = node.left.printed().len();
            let y = node.right.printed().len();
            seq![ParseToken::Open(span(a, a + 1))] + printed_tokens(*node.left, a + 1)
                + seq![ParseToken::Op((node.operator, span(a + 1 + x, a + 2 + x)))]
                + printed_tokens(*node.right, a + 2 + x) + seq![
                ParseToken::Close(span(a + 2 + x + y, a + 3 + x + y)),
            ]
        },
    }
}

/// From offset `a` on the input shows the text `p`.
#[verifier::opaque]
pub open spec fn shows(w: Seq<InputToken>, a: int, p: Seq<char>) -> bool {
    &&& 0 <= a
    &&& a + p.len() <= w.len()
    &&& forall|i: int| 0 <= i < p.len() ==> w[a + i] == classify(#[trigger] p[i])
}

/// Offset `i` of the input holds no digit, or lies outside it.
pub open spec fn no_digit_at(w: Seq<InputToken>, i: int) -> bool {
    0 <= i < w.len() ==> !(w[i] is Digit)
}

/// A run whose tokens fill the offsets from `a` up to `b` ends at `b`.
proof fn lemma_run_ends_with_window(w: Seq<InputToken>, a: int, b: int, letters: bool)
    requires
        0 <= a <= b <= w.len(),
        forall|k: int| a <= k < b ==> in_run(#[trigger] w[k], letters),
        b < w.len() ==> !in_run(w[b], letters),
    ensures
        run_end(w, a, letters) == b,
    decreases b - a,
{
    if a < b {
        assert(in_run(w[a], letters));
        lemma_run_ends_with_window(w, a + 1, b, letters);
    }
}

/// A sign of the input gives its token to the stream.
proof fn lemma_symbol_item(w: Seq<InputToken>, pos: int, c: char, tok: ParseToken)
    requires
        0 <= pos < w.len(),
        w[pos] == classify(c),
        symbol_token(c, span(pos, pos + 1)) == Some(tok),
    ensures
        assembled(w, pos + 1).tokens == assembled(w, pos).tokens.push(tok),
        assembled(w, pos + 1).errors == assembled(w, pos).errors,
{
    reveal(assembled);
    assert(item_at(w, pos) == Item::Token(tok));
}

/// The decimal numeral of a number that fits 63 bits, between characters
/// that are no digits, gives one number token to the stream.
proof fn lemma_number_item(w: Seq<InputToken>, a: int, n: nat)
    requires
        n <= i64::MAX,
        shows(w, a, decimal(n)),
        no_digit_at(w, a - 1),
        no_digit_at(w, a + decimal(n).len()),
    ensures
        assembled(w, a + decimal(n).len()).tokens == assembled(w, a).tokens.push(
            ParseToken::Number((n as i64, span(a, a + decimal(n).len()))),
        ),
        assembled(w, a + decimal(n).len()).errors == assembled(w, a).errors,
{
    let d = decimal(n);
    let b = a + d.len();
    lemma_decimal_reads_back(n);
    assert(0 <= a && b <= w.len()) by {
        reveal(shows);
    }
    assert forall|k: int| a <= k < b implies in_run(#[trigger] w[k], false) && source_char(w[k])
        == d[k - a] by {
        let c = d[k - a];
        assert(is_decimal_digit(c));
        lemma_shows_at(w, a, d, k - a);
    }
    lemma_run_ends_with_window(w, a, b, false);
    assert(source_text(w.subrange(a, b)) =~= d);
    lemma_decimal_is_number(n, span(a, b));
    reveal(assembled);
    assert(in_run(w[a], false));
    assert(item_at(w, a) == Item::Token(ParseToken::Number((n as i64, span(a, b)))));
    lemma_run_gives_one_item(w, a, b, false);
}

/// Where the input shows a text, it shows every part of it.
proof fn lemma_shows_part(w: Seq<InputToken>, a: int, p: Seq<char>, off: int, q: Seq<char>)
    requires
        shows(w, a, p),
        0 <= off,
        off + q.len() <= p.len(),
        p.subrange(off, off + q.len()) == q,
    ensures
        shows(w, a + off, q),
{
    reveal(shows);
    assert forall|i: int| 0 <= i < q.len() implies w[a + off + i] == classify(#[trigger] q[i]) by {
        assert(p.subrange(off, off + q.len())[i] == p[off + i]);
        assert(w[a + (off + i)] == classify(p[off + i]));
    }
}

/// Where the input shows a text, the token at each offset is the class of
/// the character there.
proof fn lemma_shows_at(w: Seq<InputToken>, a: int, p: Seq<char>, i: int)
    requires
        shows(w, a, p),
        0 <= i < p.len(),
    ensures
        0 <= a + i < w.len(),
        w[a + i] == classify(p[i]),
{
    reveal(shows);
    assert(w[a + i] == classify(p[i]));
}

/// A negative leaf is printed as zero minus its amount, in brackets.
proof fn lemma_printed_negative_leaf(n: i128)
    requires
        n < 0,
    ensures
        ParseTree::Number(n).printed() == seq!['(', '0', '-'] + decimal((-n) as nat) + seq![')'],
{
    reveal_strlit("(0-");
    reveal_strlit(")");
    assert("(0-"@ =~= seq!['(', '0', '-']);
    assert(")"@ =~= seq![')']);
}

/// A node is printed as its operands around its sign, in brackets.
proof fn lemma_printed_node(node: ParseNode)
    ensures
        node.printed() == seq!['('] + node.left.printed() + seq![glyph(node.operator)]
            + node.right.printed() + seq![')'],
{
    reveal_strlit("(");
    reveal_strlit(")");
    assert("("@ =~= seq!['(']);
    assert(")"@ =~= seq![')']);
}

/// Five tokens pushed one by one are five tokens appended together.
proof fn lemma_five_pushes(
    s: Seq<ParseToken>,
    t1: ParseToken,
    t2: ParseToken,
    t3: ParseToken,
    t4: ParseToken,
    t5: ParseToken,
)
    ensures
        s.push(t1).push(t2).push(t3).push(t4).push(t5) == s + seq![t1, t2, t3, t4, t5],
{
    assert(s.push(t1).push(t2).push(t3).push(t4).push(t5) =~= s + seq![t1, t2, t3, t4, t5]);
}

/// The text of zero minus an amount, in brackets, gives five tokens to the
/// stream.
proof fn lemma_lex_zero_minus(w: Seq<InputToken>, a: int, m: nat)
    requires
        m <= i64::MAX,
        shows(w, a, seq!['(', '0', '-'] + decimal(m) + seq![')']),
    ensures
        ({
            let k = decimal(m).len();
            &&& assembled(w, a + 4 + k).tokens == assembled(w, a).tokens + seq![
                ParseToken::Open(span(a, a + 1)),
                ParseToken::Number((0, span(a + 1, a + 2))),
                ParseToken::Op((Operator::Minus, span(a + 2, a + 3))),
                ParseToken::Number((m as i64, span(a + 3, a + 3 + k))),
                ParseToken::Close(span(a + 3 + k, a + 4 + k)),
            ]
            &&& assembled(w, a + 4 + k).errors == assembled(w, a).errors
        }),
{
    let d = decimal(m);
    let k = d.len() as int;
    let p = seq!['(', '0', '-'] + d + seq![')'];
    let open = ParseToken::Open(span(a, a + 1));
    let zero = ParseToken::Number((0, span(a + 1, a + 2)));
    let sign = ParseToken::Op((Operator::Minus, span(a + 2, a + 3)));
    let amount = ParseToken::Number((m as i64, span(a + 3, a + 3 + k)));
    let close = ParseToken::Close(span(a + 3 + k, a + 4 + k));
    let s0 = assembled(w, a);
    let s1 = assembled(w, a + 1);
    let s2 = assembled(w, a + 2);
    let s3 = assembled(w, a + 3);
    let s4 = assembled(w, a + 3 + k);
    let s5 = assembled(w, a + 4 + k);
    lemma_decimal_reads_back(0);
    assert(decimal(0) == seq!['0']);
    assert(p.len() == 4 + k);
    assert(p[0] == '(' && p[1] == '0' && p[2] == '-' && p[3 + k] == ')');
    assert(p.subrange(1, 2) == decimal(0)) by {
        assert(p.subrange(1, 2) =~= seq!['0']);
    }
    assert(p.subrange(3, 3 + k) == d) by {
        assert(p.subrange(3, 3 + k) =~= d);
    }
    lemma_shows_at(w, a, p, 0);
    lemma_shows_at(w, a, p, 2);
    lemma_shows_at(w, a, p, 3 + k);
    assert(s1.tokens == s0.tokens.push(open) && s1.errors == s0.errors) by {
        lemma_symbol_item(w, a, '(', open);
    }
    assert(s2.tokens == s1.tokens.push(zero) && s2.errors == s1.errors) by {
        lemma_shows_part(w, a, p, 1, decimal(0));
        lemma_number_item(w, a + 1, 0);
    }
    assert(s3.tokens == s2.tokens.push(sign) && s3.errors == s2.errors) by {
        lemma_symbol_item(w, a + 2, '-', sign);
    }
    assert(s4.tokens == s3.tokens.push(amount) && s4.errors == s3.errors) by {
        lemma_shows_part(w, a, p, 3, d);
        lemma_number_item(w, a + 3, m);
    }
    assert(s5.tokens == s4.tokens.push(close) && s5.errors == s4.errors) by {
        lemma_symbol_item(w, a + 3 + k, ')', close);
    }
    lemma_five_pushes(s0.tokens, open, zero, sign, amount, close);
}

/// The text of a negative leaf gives five tokens to the stream.
proof fn lemma_lex_negative_leaf(n: i128, w: Seq<InputToken>, a: int)
    requires
        -i64::MAX <= n < 0,
        shows(w, a, ParseTree::Number(n).printed()),
    ensures
        assembled(w, a + ParseTree::Number(n).printed().len()).tokens == assembled(w, a).tokens
            + printed_tokens(ParseTree::Number(n), a),
        assembled(w, a + ParseTree::Number(n).printed().len()).errors == assembled(w, a).errors,
{
    lemma_printed_negative_leaf(n);
    lemma_lex_zero_minus(w, a, (-n) as nat);
}

/// Tokens pushed and appended part by part are the parts appended together.
proof fn lemma_parts_appended(
    s: Seq<ParseToken>,
    open: ParseToken,
    l: Seq<ParseToken>,
    sign: ParseToken,
    r: Seq<ParseToken>,
    close: ParseToken,
)
    ensures
        ((s.push(open) + l).push(sign) + r).push(close) == s + (seq![open] + l + seq![sign] + r
            + seq![close]),
{
    assert(((s.push(open) + l).push(sign) + r).push(close) =~= s + (seq![open] + l + seq![sign]
        + r + seq![close]));
}

/// Where the input shows a printed node with an additive operator, it shows
/// the brackets, the operands and the sign, each at its place.
proof fn lemma_node_windows(node: ParseNode, w: Seq<InputToken>, a: int)
    requires
        node.operator.is_additive(),
        shows(w, a, node.printed()),
    ensures
        ({
            let x = node.left.printed().len();
            let y = node.right.printed().len();
            &&& node.printed().len() == x + y + 3
            &&& 0 <= a
            &&& a + x + y + 3 <= w.len()
            &&& w[a] == classify('(')
            &&& w[a + 1 + x] == classify(glyph(node.operator))
            &&& w[a + 2 + x + y] == classify(')')
            &&& shows(w, a + 1, node.left.printed())
            &&& shows(w, a + 2 + x, node.right.printed())
        }),
{
    let p = node.printed();
    let pl = node.left.printed();
    let pr = node.right.printed();
    let x = pl.len() as int;
    let y = pr.len() as int;
    lemma_printed_node(node);
    assert(p.subrange(1, 1 + x) =~= pl);
    assert(p.subrange(2 + x, 2 + x + y) =~= pr);
    lemma_shows_at(w, a, p, 0);
    lemma_shows_at(w, a, p, 1 + x);
    lemma_shows_at(w, a, p, 2 + x + y);
    lemma_shows_part(w, a, p, 1, pl);
    lemma_shows_part(w, a, p, 2 + x, pr);
}

/// The brackets and the sign of a printed node give their tokens to the
/// stream around those of the operands.
proof fn lemma_lex_node(
    w: Seq<InputToken>,
    a: int,
    x: int,
    y: int,
    op: Operator,
    tl: Seq<ParseToken>,
    tr: Seq<ParseToken>,
)
    requires
        op.is_additive(),
        0 <= a,
        0 <= x,
        0 <= y,
        a + x + y + 3 <= w.len(),
        w[a] == classify('('),
        w[a + 1 + x] == classify(glyph(op)),
        w[a + 2 + x + y] == classify(')'),
        assembled(w, a + 1 + x).tokens == assembled(w, a + 1).tokens + tl,
        assembled(w, a + 1 + x).errors == assembled(w, a + 1).errors,
        assembled(w, a + 2 + x + y).tokens == assembled(w, a + 2 + x).tokens + tr,
        assembled(w, a + 2 + x + y).errors == assembled(w, a + 2 + x).errors,
    ensures
        assembled(w, a + 3 + x + y).tokens == assembled(w, a).tokens + (seq![
            ParseToken::Open(span(a, a + 1)),
        ] + tl + seq![ParseToken::Op((op, span(a + 1 + x, a + 2 + x)))] + tr + seq![
            ParseToken::Close(span(a + 2 + x + y, a + 3 + x + y)),
        ]),
        assembled(w, a + 3 + x + y).errors == assembled(w, a).errors,
{
    let open = ParseToken::Open(span(a, a + 1));
    let sign = ParseToken::Op((op, span(a + 1 + x, a + 2 + x)));
    let close = ParseToken::Close(span(a + 2 + x + y, a + 3 + x + y));
    lemma_symbol_item(w, a, '(', open);
    lemma_symbol_item(w, a + 1 + x, glyph(op), sign);
    lemma_symbol_item(w, a + 2 + x + y, ')', close);
    lemma_parts_appended(assembled(w, a).tokens, open, tl, sign, tr, close);
}

/// The text of a printed tree that can be read back, between characters
/// that are no digits, gives the tokens of the tree to the stream, and no
/// diagnostic.
proof fn lemma_lex_printed(t: ParseTree, w: Seq<InputToken>, a: int)
    requires
        reads_back(t),
        shows(w, a, t.printed()),
        no_digit_at(w, a - 1),
        no_digit_at(w, a + t.printed().len()),
    ensures
        assembled(w, a + t.printed().len()).tokens == assembled(w, a).tokens + printed_tokens(
            t,
            a,
        ),
        assembled(w, a + t.printed().len()).errors == assembled(w, a).errors,
    decreases t,
{
    match t {
        ParseTree::Number(n) => {
            if n < 0 {
                lemma_lex_negative_leaf(n, w, a);
            } else {
                lemma_number_item(w, a, n as nat);
                let token = ParseToken::Number((n as i64, span(a, a + t.printed().len())));
                assert(assembled(w, a).tokens.push(token) =~= assembled(w, a).tokens
                    + seq![token]);
            }
        },
        ParseTree::Node(node) => {
            let x = node.left.printed().len() as int;
            let y = node.right.printed().len() as int;
            lemma_node_windows(*node, w, a);
            lemma_lex_printed(*node.left, w, a + 1);
            lemma_lex_printed(*node.right, w, a + 2 + x);
            lemma_lex_node(
                w,
                a,
                x,
                y,
                node.operator,
                printed_tokens(*node.left, a + 1),
                printed_tokens(*node.right, a + 2 + x),
            );
        },
    }
}

/// A stream that stands for one operand: a single number, or a balanced
/// stream enclosed in one pair of brackets.
pub open spec fn is_operand(s: Seq<ParseToken>) -> bool {
    &&& balanced(s)
    &&& (s.len() == 1 && s[0] is Number) || (s.len() >= 3 && enclosed(s))
}

/// Two operands around an operator are split at that operator.
proof fn lemma_joined_splits_at_sign(l: Seq<ParseToken>, sign: ParseToken, r: Seq<ParseToken>)
    requires
        is_operand(l),
        is_operand(r),
        sign is Op,
    ensures
        balanced(joined(l, sign, r)),
        !enclosed(joined(l, sign, r)),
        split_index(joined(l, sign, r)) == Some(l.len() as int),
{
    let s = joined(l, sign, r);
    let x = l.len() as int;
    let n = s.len() as int;
    assert forall|i: int| 0 <= i <= n implies depth(s, i) >= 0 by {
        lemma_depth_in_joined(l, sign, r, i);
    }
    lemma_depth_in_joined(l, sign, r, n);
    lemma_depth_in_joined(l, sign, r, x);
    assert(s[0] == l[0]);
    assert(s[x] == sign);
    assert forall|j: int| 0 <= j < n && j != x implies !is_split(s, j, true) && !is_split(
        s,
        j,
        false,
    ) by {
        lemma_depth_in_joined(l, sign, r, j);
        if j < x {
            assert(s[j] == l[j]);
        } else {
            assert(s[j] == r[j - x - 1]);
        }
    }
    lemma_last_split(s, n, true);
    lemma_last_split(s, n, false);
    assert(is_split(s, x, true) || is_split(s, x, false));
}

/// Two operands around an operator have the node of that operator, with the
/// trees of the operands below it.
proof fn lemma_joined_builds(
    l: Seq<ParseToken>,
    sign: ParseToken,
    r: Seq<ParseToken>,
    left: ParseTree,
    right: ParseTree,
)
    requires
        is_operand(l),
        is_operand(r),
        sign is Op,
        build_tree(l) == Ok::<ParseTree, ErrorView>(left),
        build_tree(r) == Ok::<ParseTree, ErrorView>(right),
    ensures
        build_tree(joined(l, sign, r)) == Ok::<ParseTree, ErrorView>(
            ParseTree::Node(
                Box::new(
                    ParseNode {
                        operator: sign->Op_0.0,
                        left: Box::new(left),
                        right: Box::new(right),
                    },
                ),
            ),
        ),
{
    let s = joined(l, sign, r);
    let x = l.len() as int;
    let n = s.len() as int;
    lemma_joined_splits_at_sign(l, sign, r);
    assert(s.subrange(0, x) =~= l);
    assert(s.subrange(x + 1, n) =~= r);
    assert(s[x] == sign);
    assert(operator_at(s, x) == sign->Op_0.0);
    assert(build_node(s) == Ok::<ParseNode, ErrorView>(
        ParseNode { operator: sign->Op_0.0, left: Box::new(left), right: Box::new(right) },
    ));
}

/// A balanced stream in brackets.
pub open spec fn bracketed(open: ParseToken, s: Seq<ParseToken>, close: ParseToken) -> Seq<
    ParseToken,
> {
    seq![open] + s + seq![close]
}

/// A balanced stream in brackets is an operand with the tree of the stream.
proof fn lemma_bracketed_builds(open: ParseToken, s: Seq<ParseToken>, close: ParseToken)
    requires
        balanced(s),
        s.len() >= 1,
        open is Open,
        close is Close,
    ensures
        is_operand(bracketed(open, s, close)),
        build_tree(bracketed(open, s, close)) == build_tree(s),
{
    let t = bracketed(open, s, close);
    let n = t.len() as int;
    assert(depth(seq![open], 1) == depth(seq![open], 0) + delta(seq![open][0]));
    assert(depth(seq![open], 0) == 0);
    assert(depth(seq![close], 1) == depth(seq![close], 0) + delta(seq![close][0]));
    assert(depth(seq![close], 0) == 0);
    assert forall|i: int| 0 <= i <= n implies depth(t, i) == (if i == 0 {
        0
    } else if i < n {
        1 + depth(s, i - 1)
    } else {
        0
    }) by {
        lemma_depth_of_joined(seq![open] + s, seq![close], i);
        if i <= n - 1 {
            lemma_depth_of_joined(seq![open], s, i);
        }
        lemma_depth_of_joined(seq![open], s, n - 1);
    }
    assert(t[0] == open);
    assert(balanced(t));
    assert(enclosed(t));
    assert(interior(t) =~= s);
}

/// Two well-formed operands around an operator, in brackets, are
/// well-formed.
proof fn lemma_bracketed_is_well_formed(
    open: ParseToken,
    l: Seq<ParseToken>,
    sign: ParseToken,
    r: Seq<ParseToken>,
    close: ParseToken,
)
    requires
        is_operand(l),
        is_operand(r),
        well_formed(l),
        well_formed(r),
        open is Open,
        close is Close,
        sign is Op,
    ensures
        well_formed(bracketed(open, joined(l, sign, r), close)),
{
    let t = bracketed(open, joined(l, sign, r), close);
    let x = l.len() as int;
    let y = r.len() as int;
    let n = t.len() as int;
    lemma_joined_splits_at_sign(l, sign, r);
    lemma_bracketed_builds(open, joined(l, sign, r), close);
    assert(t[0] == open);
    assert(t[n - 1] == close);
    assert forall|i: int| 0 <= i < n - 1 implies may_follow(t[i], #[trigger] t[i + 1]) by {
        if i == 0 {
            assert(t[1] == l[0]);
        } else if i < x {
            assert(t[i] == l[i - 1]);
            assert(t[i + 1] == l[i - 1 + 1]);
            assert(may_follow(l[i - 1], l[i - 1 + 1]));
        } else if i == x {
            assert(t[i] == l[x - 1]);
            assert(t[i + 1] == sign);
        } else if i == x + 1 {
            assert(t[i] == sign);
            assert(t[i + 1] == r[0]);
        } else if i < x + 1 + y {
            assert(t[i] == r[i - x - 2]);
            assert(t[i + 1] == r[i - x - 2 + 1]);
            assert(may_follow(r[i - x - 2], r[i - x - 2 + 1]));
        } else {
            assert(t[i] == r[y - 1]);
            assert(t[i + 1] == close);
        }
    }
}

/// The tokens of a printed tree whose leaves are numbers of the input are a
/// well-formed operand, and their tree is the tree as it is read back. This
/// holds of every operator: the brackets of the printed form alone say how
/// the tree is built.
pub proof fn lemma_printed_tokens_build(t: ParseTree, a: int)
    requires
        leaves_fit(t),
    ensures
        is_operand(printed_tokens(t, a)),
        well_formed(printed_tokens(t, a)),
        build_tree(printed_tokens(t, a)) == Ok::<ParseTree, ErrorView>(read_back(t)),
    decreases t,
{
    let tokens = printed_tokens(t, a);
    match t {
        ParseTree::Number(n) => {
            if n < 0 {
                let m = decimal((-n) as nat).len();
                let open = ParseToken::Open(span(a, a + 1));
                let zero = ParseToken::Number((0, span(a + 1, a + 2)));
                let sign = ParseToken::Op((Operator::Minus, span(a + 2, a + 3)));
                let amount = ParseToken::Number(((-n) as i64, span(a + 3, a + 3 + m)));
                let close = ParseToken::Close(span(a + 3 + m, a + 4 + m));
                assert(tokens =~= bracketed(open, joined(seq![zero], sign, seq![amount]), close));
                lemma_single_number(zero);
                lemma_single_number(amount);
                lemma_joined_builds(
                    seq![zero],
                    sign,
                    seq![amount],
                    ParseTree::Number(0),
                    ParseTree::Number((-n) as i128),
                );
                lemma_joined_splits_at_sign(seq![zero], sign, seq![amount]);
                lemma_bracketed_builds(open, joined(seq![zero], sign, seq![amount]), close);
                lemma_bracketed_is_well_formed(open, seq![zero], sign, seq![amount], close);
            } else {
                lemma_single_number(tokens[0]);
                assert(tokens =~= seq![tokens[0]]);
            }
        },
        ParseTree::Node(node) => {
            let x = node.left.printed().len();
            let y = node.right.printed().len();
            let open = ParseToken::Open(span(a, a + 1));
            let sign = ParseToken::Op((node.operator, span(a + 1 + x, a + 2 + x)));
            let close = ParseToken::Close(span(a + 2 + x + y, a + 3 + x + y));
            let l = printed_tokens(*node.left, a + 1);
            let r = printed_tokens(*node.right, a + 2 + x);
            lemma_printed_tokens_build(*node.left, a + 1);
            lemma_printed_tokens_build(*node.right, a + 2 + x);
            assert(tokens =~= bracketed(open, joined(l, sign, r), close));
            lemma_joined_builds(l, sign, r, read_back(*node.left), read_back(*node.right));
            lemma_joined_splits_at_sign(l, sign, r);
            lemma_bracketed_builds(open, joined(l, sign, r), close);
            lemma_bracketed_is_well_formed(open, l, sign, r, close);
        },
    }
}

/// A single number is a well-formed operand whose tree is a leaf.
proof fn lemma_single_number(t: ParseToken)
    requires
        t is Number,
    ensures
        is_operand(seq![t]),
        well_formed(seq![t]),
        build_tree(seq![t]) == Ok::<ParseTree, ErrorView>(ParseTree::Number(t->Number_0.0 as i128)),
{
    let s = seq![t];
    assert(depth(s, 0) == 0);
    assert(depth(s, 1) == depth(s, 0) + delta(s[0]));
}

/// No number among the tokens is negative.
pub open spec fn numbers_not_negative(s: Seq<ParseToken>) -> bool {
    forall|i: int| 0 <= i < s.len() ==> (#[trigger] s[i] matches ParseToken::Number(p) ==> 0 <= p.0)
}

/// The tree of tokens without negative numbers has leaves between
/// `-(2^63 - 1)` and `2^63 - 1`.
pub proof fn lemma_tree_leaves_fit(s: Seq<ParseToken>)
    requires
        numbers_not_negative(s),
    ensures
        build_tree(s) matches Ok(t) ==> leaves_fit(t),
        build_node(s) matches Ok(node) ==> leaves_fit(*node.left) && leaves_fit(*node.right),
    decreases s.len(),
{
    let n = s.len() as int;
    if n >= 1 {
        assert(s[0] matches ParseToken::Number(p) ==> 0 <= p.0);
    }
    if n >= 2 {
        assert(s[1] matches ParseToken::Number(p) ==> 0 <= p.0);
    }
    if balanced(s) && enclosed(s) {
        assert(numbers_not_negative(interior(s))) by {
            assert forall|i: int| 0 <= i < interior(s).len() implies (#[trigger] interior(
                s,
            )[i] matches ParseToken::Number(p) ==> 0 <= p.0) by {
                assert(interior(s)[i] == s[i + 1]);
            }
        }
        lemma_tree_leaves_fit(interior(s));
    } else if balanced(s) {
        match split_index(s) {
            Some(k) => {
                if 0 <= k < n {
                    let left = s.subrange(0, k);
                    let right = s.subrange(k + 1, n);
                    assert(numbers_not_negative(left)) by {
                        assert forall|i: int| 0 <= i < left.len() implies (#[trigger] left[i] matches ParseToken::Number(
                            p,
                        ) ==> 0 <= p.0) by {
                            assert(left[i] == s[i]);
                        }
                    }
                    assert(numbers_not_negative(right)) by {
                        assert forall|i: int| 0 <= i < right.len() implies (#[trigger] right[i] matches ParseToken::Number(
                            p,
                        ) ==> 0 <= p.0) by {
                            assert(right[i] == s[i + k + 1]);
                        }
                    }
                    lemma_tree_leaves_fit(left);
                    lemma_tree_leaves_fit(right);
                }
            },
            None => {},
        }
    }
    if n >= 3 && !(balanced(s) && enclosed(s)) {
        assert(build_node(s) matches Ok(node) ==> leaves_fit(*node.left) && leaves_fit(
            *node.right,
        ));
    }
}

/// The tree of an expression given as text has leaves between
/// `-(2^63 - 1)` and `2^63 - 1`.
pub proof fn lemma_expression_leaves_fit(text: Seq<char>)
    ensures
        expression_tree(text) matches Ok(t) ==> leaves_fit(t),
{
    let input = classified(text);
    crate::stream::parse::lemma_numbers_are_not_negative(input, input.len() as int);
    lemma_tree_leaves_fit(assemble(input).tokens);
}

/// Printing a tree of sums and differences and reading the text back gives
/// the same tree, with every negative leaf as zero minus its amount, and
/// with it the same integer value.
///
/// This holds of the trees whose operators are plus and minus and whose
/// leaves lie between `-(2^63 - 1)` and `2^63 - 1`. The signs that products
/// and quotients are printed with are no characters of the input, and the
/// amount of a larger leaf is no number of the input.
pub proof fn lemma_print_then_read(t: ParseTree)
    requires
        reads_back(t),
    ensures
        expression_tree(t.printed()) == Ok::<ParseTree, ErrorView>(read_back(t)),
        read_back(t).integer_value() == t.integer_value(),
{
    let p = t.printed();
    let w = classified(p);
    assert(shows(w, 0, p)) by {
        reveal(shows);
    }
    lemma_lex_printed(t, w, 0);
    lemma_reads_back_fits(t);
    assert(assembled(w, 0).tokens == Seq::<ParseToken>::empty() && assembled(w, 0).errors
        == Seq::<crate::error::Diagnostic>::empty()) by {
        reveal(assembled);
    }
    assert(assemble(w).tokens =~= printed_tokens(t, 0));
    lemma_printed_tokens_build(t, 0);
    lemma_well_formed_is_valid(printed_tokens(t, 0));
    lemma_read_back_keeps_value(t);
}

} // verus!
