//! The stream of expression tokens: its assembly from classified characters
//! and its validation.

use vstd::prelude::*;
use vstd::std_specs::iter::IteratorSpec;
use crate::error::{diagnostics, Diagnostic, Error, ErrorStruct, ErrorView};
use crate::parse::scan::{close_index, find_close_idx, find_open_idx, has_close, has_open};
use crate::stream::input::{source_char, source_text, InputStream};
use crate::stream::numeral::{
    lemma_token_number_is_not_negative, msg_bad_number, msg_unknown_word, number_of, number_token,
    word_of, word_token,
};
use crate::token::{InputToken, ParseToken};
use crate::types::{Operator, StartEnd};

verus! {

/// The message for a character that is none of the calculator's.
pub open spec fn msg_unknown_char() -> Seq<char> {
    "Unbekanntes Zeichen"@
}

/// The message for a number that follows a number or a closing bracket.
pub open spec fn msg_operand_misplaced() -> Seq<char> {
    "Operand hier nicht möglich"@
}

/// The message for an operator that no number and no bracket follows.
pub open spec fn msg_operand_missing() -> Seq<char> {
    "Operator hat keinen Operanden"@
}

/// The message for an operator other than minus at the very front.
pub open spec fn msg_operator_misplaced() -> Seq<char> {
    "Operator hier nicht möglich"@
}

/// The message for an opening bracket that is never closed.
pub open spec fn msg_close_missing() -> Seq<char> {
    "Schließende Klammer fehlt"@
}

/// The message for a closing bracket that was never opened.
pub open spec fn msg_open_missing() -> Seq<char> {
    "Öffnende Klammer fehlt"@
}

/// The range from `start` up to `end`.
pub open spec fn span(start: int, end: int) -> StartEnd {
    StartEnd { start: start as usize, end: end as usize }
}

/// The token belongs to a run of letters, or to a run of digits.
pub open spec fn in_run(t: InputToken, letters: bool) -> bool {
    if letters {
        t is Letter
    } else {
        t is Digit
    }
}

/// The end of the run of letters, or of digits, that reaches `pos`: the
/// first offset from `pos` on whose token is not of the run.
pub open spec fn run_end(input: Seq<InputToken>, pos: int, letters: bool) -> int
    decreases input.len() - pos,
{
    if 0 <= pos < input.len() && in_run(input[pos], letters) {
        run_end(input, pos + 1, letters)
    } else {
        pos
    }
}

/// The token of one of the six symbols.
pub open spec fn symbol_token(c: char, range: StartEnd) -> Option<ParseToken> {
    if c == '+' {
        Some(ParseToken::Op((Operator::Plus, range)))
    } else if c == '-' {
        Some(ParseToken::Op((Operator::Minus, range)))
    } else if c == '*' {
        Some(ParseToken::Op((Operator::Multiply, range)))
    } else if c == '/' {
        Some(ParseToken::Op((Operator::Divide, range)))
    } else if c == '(' {
        Some(ParseToken::Open(range))
    } else if c == ')' {
        Some(ParseToken::Close(range))
    } else {
        None
    }
}

/// What one offset of the input gives to the stream.
pub enum Item {
    Nothing,
    Token(ParseToken),
    Problem(Diagnostic),
}

/// A token if there is one, else a diagnostic with the given message.
pub open spec fn token_or(t: Option<ParseToken>, range: StartEnd, msg: Seq<char>) -> Item {
    match t {
        Some(t) => Item::Token(t),
        None => Item::Problem(Diagnostic { range, msg }),
    }
}

/// What the character at `pos` gives to the stream.
///
/// A blank gives nothing. A run of letters gives, at its first letter, the
/// token of the word it spells, and a run of digits the token of its number;
/// the range is that of the whole run. A symbol gives its token. All else,
/// and a word or number that stands for no token, gives a diagnostic.
pub open spec fn item_at(input: Seq<InputToken>, pos: int) -> Item {
    match input[pos] {
        InputToken::Space => Item::Nothing,
        InputToken::Letter(_) => if pos > 0 && input[pos - 1] is Letter {
            Item::Nothing
        } else {
            let end = run_end(input, pos, true);
            let range = span(pos, end);
            token_or(
                word_token(source_text(input.subrange(pos, end)), range),
                range,
                msg_unknown_word(),
            )
        },
        InputToken::Digit(_) => if pos > 0 && input[pos - 1] is Digit {
            Item::Nothing
        } else {
            let end = run_end(input, pos, false);
            let range = span(pos, end);
            token_or(
                number_token(source_text(input.subrange(pos, end)), range),
                range,
                msg_bad_number(),
            )
        },
        InputToken::Symbol(c) => token_or(
            symbol_token(c, span(pos, pos + 1)),
            span(pos, pos + 1),
            msg_unknown_char(),
        ),
        InputToken::Whatever(_) => Item::Problem(
            Diagnostic { range: span(pos, pos + 1), msg: msg_unknown_char() },
        ),
    }
}

/// Tokens and diagnostics, each in reading order.
pub struct Assembly {
    pub tokens: Seq<ParseToken>,
    pub errors: Seq<Diagnostic>,
}

impl Assembly {
    /// The assembly with one more item at its end.
    pub open spec fn with(self, item: Item) -> Assembly {
        match item {
            Item::Nothing => self,
            Item::Token(t) => Assembly { tokens: self.tokens.push(t), errors: self.errors },
            Item::Problem(d) => Assembly { tokens: self.tokens, errors: self.errors.push(d) },
        }
    }
}

/// The tokens and diagnostics that the first `n` characters give.
#[verifier::opaque]
pub open spec fn assembled(input: Seq<InputToken>, n: int) -> Assembly
    decreases n,
{
    if n <= 0 {
        Assembly { tokens: Seq::empty(), errors: Seq::empty() }
    } else {
        assembled(input, n - 1).with(item_at(input, n - 1))
    }
}

/// The tokens and diagnostics of a whole input.
pub open spec fn assemble(input: Seq<InputToken>) -> Assembly {
    assembled(input, input.len() as int)
}

/// The token in front of `idx` is an operator or an opening bracket.
pub open spec fn follows_opening(s: Seq<ParseToken>, idx: int) -> bool {
    idx > 0 && (s[idx - 1] is Op || s[idx - 1] is Open)
}

/// The token behind `idx` is a number or an opening bracket.
pub open spec fn precedes_operand(s: Seq<ParseToken>, idx: int) -> bool {
    idx + 1 < s.len() && (s[idx + 1] is Number || s[idx + 1] is Open)
}

/// The message about token `idx`, if it breaks a rule.
///
/// A number stands at the front or behind an operator or an opening
/// bracket. An operator stands in front of a number or an opening bracket,
/// and only a minus sign stands at the front. An opening bracket is closed,
/// and a closing bracket was opened.
pub open spec fn complaint_at(s: Seq<ParseToken>, idx: int) -> Option<Seq<char>> {
    match s[idx] {
        ParseToken::Number(_) => if idx == 0 || follows_opening(s, idx) {
            None
        } else {
            Some(msg_operand_misplaced())
        },
        ParseToken::Op(p) => if idx == 0 && p.0 != Operator::Minus {
            Some(msg_operator_misplaced())
        } else if precedes_operand(s, idx) {
            None
        } else {
            Some(msg_operand_missing())
        },
        ParseToken::Open(_) => if has_close(s, idx) {
            None
        } else {
            Some(msg_close_missing())
        },
        ParseToken::Close(_) => if has_open(s, idx) {
            None
        } else {
            Some(msg_open_missing())
        },
    }
}

/// The diagnostics about the first `n` tokens, in reading order, each with
/// the range of the token that it is about.
pub open spec fn violations(s: Seq<ParseToken>, n: int) -> Seq<Diagnostic>
    decreases n,
{
    if n <= 0 {
        Seq::empty()
    } else {
        match complaint_at(s, n - 1) {
            Some(msg) => violations(s, n - 1).push(
                Diagnostic { range: s[n - 1].spec_range(), msg },
            ),
            None => violations(s, n - 1),
        }
    }
}

/// No token of the stream breaks a rule.
pub open spec fn valid(s: Seq<ParseToken>) -> bool {
    forall|i: int| 0 <= i < s.len() ==> complaint_at(s, i) is None
}

/// A run ends at or behind the offset that it is asked from, and within the
/// input.
proof fn lemma_run_end_bounds(input: Seq<InputToken>, pos: int, letters: bool)
    requires
        0 <= pos <= input.len(),
    ensures
        pos <= run_end(input, pos, letters) <= input.len(),
    decreases input.len() - pos,
{
    if pos < input.len() && in_run(input[pos], letters) {
        lemma_run_end_bounds(input, pos + 1, letters);
    }
}

/// Behind its first character a run gives nothing more to the stream.
pub proof fn lemma_run_gives_one_item(input: Seq<InputToken>, start: int, end: int, letters: bool)
    requires
        0 <= start < end <= input.len(),
        forall|k: int| start <= k < end ==> in_run(#[trigger] input[k], letters),
    ensures
        assembled(input, end) == assembled(input, start + 1),
    decreases end - start,
{
    reveal(assembled);
    if end > start + 1 {
        lemma_run_gives_one_item(input, start, end - 1, letters);
        assert(in_run(input[end - 1], letters));
        assert(in_run(input[end - 2], letters));
        assert(item_at(input, end - 1) == Item::Nothing);
    }
}

/// A stream is valid exactly if it has no diagnostics.
pub proof fn lemma_valid_has_no_violations(s: Seq<ParseToken>, n: int)
    requires
        0 <= n <= s.len(),
    ensures
        violations(s, n).len() == 0 <==> forall|i: int| 0 <= i < n ==> complaint_at(s, i) is None,
    decreases n,
{
    if n > 0 {
        lemma_valid_has_no_violations(s, n - 1);
    }
}

/// The character of a token of the run, or nothing for another token.
fn run_char(t: InputToken, letters: bool) -> (r: Option<char>)
    ensures
        r is Some <==> in_run(t, letters),
        r matches Some(c) ==> c == source_char(t),
{
    match t {
        InputToken::Letter(c) => if letters {
            Some(c)
        } else {
            None
        },
        InputToken::Digit(c) => if letters {
            None
        } else {
            Some(c)
        },
        _ => None,
    }
}

/// The range is not empty and ends within the first `n` offsets.
pub open spec fn lies_within(range: StartEnd, n: int) -> bool {
    range.start < range.end <= n
}

/// What the character at `pos` gives to the stream has a range that begins
/// at `pos`, is not empty and ends within the input.
proof fn lemma_item_range(input: Seq<InputToken>, pos: int)
    requires
        0 <= pos < input.len() <= usize::MAX,
    ensures
        match item_at(input, pos) {
            Item::Nothing => true,
            Item::Token(t) => t.spec_range().start == pos && lies_within(
                t.spec_range(),
                input.len() as int,
            ),
            Item::Problem(d) => d.range.start == pos && lies_within(d.range, input.len() as int),
        },
{
    match input[pos] {
        InputToken::Letter(_) => {
            lemma_run_end_bounds(input, pos + 1, true);
        },
        InputToken::Digit(_) => {
            lemma_run_end_bounds(input, pos + 1, false);
        },
        _ => {},
    }
}

/// Every token and every diagnostic of an input has a range that is not
/// empty and lies within the input.
pub proof fn lemma_ranges_lie_within_input(input: Seq<InputToken>, n: int)
    requires
        0 <= n <= input.len() <= usize::MAX,
    ensures
        forall|i: int|
            0 <= i < assembled(input, n).tokens.len() ==> lies_within(
                (#[trigger] assembled(input, n).tokens[i]).spec_range(),
                input.len() as int,
            ),
        forall|i: int|
            0 <= i < assembled(input, n).errors.len() ==> lies_within(
                (#[trigger] assembled(input, n).errors[i]).range,
                input.len() as int,
            ),
    decreases n,
{
    reveal(assembled);
    if n > 0 {
        lemma_ranges_lie_within_input(input, n - 1);
        lemma_item_range(input, n - 1);
        let before = assembled(input, n - 1);
        let after = assembled(input, n);
        assert(after == before.with(item_at(input, n - 1)));
        assert forall|i: int| 0 <= i < after.tokens.len() implies lies_within(
            (#[trigger] after.tokens[i]).spec_range(),
            input.len() as int,
        ) by {
            if i < before.tokens.len() {
                assert(after.tokens[i] == before.tokens[i]);
            }
        }
        assert forall|i: int| 0 <= i < after.errors.len() implies lies_within(
            (#[trigger] after.errors[i]).range,
            input.len() as int,
        ) by {
            if i < before.errors.len() {
                assert(after.errors[i] == before.errors[i]);
            }
        }
    }
}

/// Where the range of the last token or diagnostic of the first `n`
/// characters ends; 0 where they give none.
pub open spec fn read_up_to(input: Seq<InputToken>, n: int) -> int
    decreases n,
{
    if n <= 0 {
        0
    } else {
        match item_at(input, n - 1) {
            Item::Nothing => read_up_to(input, n - 1),
            Item::Token(t) => t.spec_range().end as int,
            Item::Problem(d) => d.range.end as int,
        }
    }
}

/// Offset `n` lies inside a run of letters or of digits that ends at `end`.
pub open spec fn inside_run(input: Seq<InputToken>, n: int, end: int) -> bool {
    &&& 1 <= n < input.len()
    &&& {
        ||| input[n - 1] is Letter && input[n] is Letter && run_end(input, n, true) == end
        ||| input[n - 1] is Digit && input[n] is Digit && run_end(input, n, false) == end
    }
}

/// What has been read ends within the input, and where it ends behind
/// offset `n`, that offset lies inside the run that was read.
proof fn lemma_read_up_to(input: Seq<InputToken>, n: int)
    requires
        0 <= n <= input.len() <= usize::MAX,
    ensures
        0 <= read_up_to(input, n) <= input.len(),
        read_up_to(input, n) > n ==> inside_run(input, n, read_up_to(input, n)),
    decreases n,
{
    if n > 0 {
        let pos = n - 1;
        lemma_read_up_to(input, pos);
        lemma_item_range(input, pos);
        lemma_run_end_bounds(input, n, true);
        lemma_run_end_bounds(input, n, false);
        let end = read_up_to(input, n);
        if end > n {
            match item_at(input, pos) {
                Item::Nothing => {
                    assert(inside_run(input, pos, end));
                },
                _ => {
                    assert(input[pos] is Letter || input[pos] is Digit);
                },
            }
        }
    }
}

/// The ranges of the tokens and diagnostics of the first `n` characters end
/// within what has been read, and each begins where the one in front of it
/// has ended or behind that.
proof fn lemma_ranges_follow(input: Seq<InputToken>, n: int)
    requires
        0 <= n <= input.len() <= usize::MAX,
    ensures
        ({
            let a = assembled(input, n);
            &&& forall|i: int|
                0 <= i < a.tokens.len() ==> (#[trigger] a.tokens[i]).spec_range().end
                    <= read_up_to(input, n)
            &&& forall|i: int|
                0 <= i < a.errors.len() ==> (#[trigger] a.errors[i]).range.end <= read_up_to(
                    input,
                    n,
                )
            &&& forall|i: int, j: int|
                0 <= i < j < a.tokens.len() ==> (#[trigger] a.tokens[i]).spec_range().end <= (
                #[trigger] a.tokens[j]).spec_range().start
            &&& forall|i: int, j: int|
                0 <= i < j < a.errors.len() ==> (#[trigger] a.errors[i]).range.end <= (
                #[trigger] a.errors[j]).range.start
            &&& forall|i: int, j: int|
                0 <= i < a.tokens.len() && 0 <= j < a.errors.len() ==> {
                    ||| (#[trigger] a.tokens[i]).spec_range().end <= (#[trigger] a.errors[j]).range.start
                    ||| a.errors[j].range.end <= a.tokens[i].spec_range().start
                }
        }),
    decreases n,
{
    reveal(assembled);
    if n > 0 {
        let pos = n - 1;
        lemma_ranges_follow(input, pos);
        lemma_read_up_to(input, pos);
        lemma_read_up_to(input, n);
        lemma_item_range(input, pos);
        let before = assembled(input, pos);
        let after = assembled(input, n);
        assert(after == before.with(item_at(input, pos)));
        assert(read_up_to(input, pos) > pos ==> item_at(input, pos) is Nothing);
        assert(read_up_to(input, pos) <= read_up_to(input, n));
        assert forall|i: int| 0 <= i < after.tokens.len() implies (#[trigger] after.tokens[i]).spec_range().end
            <= read_up_to(input, n) by {
            if i < before.tokens.len() {
                assert(after.tokens[i] == before.tokens[i]);
            }
        }
        assert forall|i: int| 0 <= i < after.errors.len() implies (#[trigger] after.errors[i]).range.end
            <= read_up_to(input, n) by {
            if i < before.errors.len() {
                assert(after.errors[i] == before.errors[i]);
            }
        }
        assert forall|i: int, j: int| 0 <= i < j < after.tokens.len() implies (
        #[trigger] after.tokens[i]).spec_range().end <= (#[trigger] after.tokens[j]).spec_range().start by {
            assert(after.tokens[i] == before.tokens[i]);
            if j < before.tokens.len() {
                assert(after.tokens[j] == before.tokens[j]);
            }
        }
        assert forall|i: int, j: int| 0 <= i < j < after.errors.len() implies (
        #[trigger] after.errors[i]).range.end <= (#[trigger] after.errors[j]).range.start by {
            assert(after.errors[i] == before.errors[i]);
            if j < before.errors.len() {
                assert(after.errors[j] == before.errors[j]);
            }
        }
        assert forall|i: int, j: int|
            0 <= i < after.tokens.len() && 0 <= j < after.errors.len() implies {
            ||| (#[trigger] after.tokens[i]).spec_range().end <= (#[trigger] after.errors[j]).range.start
            ||| after.errors[j].range.end <= after.tokens[i].spec_range().start
        } by {
            if i < before.tokens.len() {
                assert(after.tokens[i] == before.tokens[i]);
            }
            if j < before.errors.len() {
                assert(after.errors[j] == before.errors[j]);
            }
        }
    }
}

/// The ranges of the tokens of an input stand in reading order and do not
/// overlap, and so do those of its diagnostics. No token's range overlaps
/// with a diagnostic's.
pub proof fn lemma_ranges_are_in_order(input: Seq<InputToken>)
    requires
        input.len() <= usize::MAX,
    ensures
        forall|i: int, j: int|
            0 <= i < j < assemble(input).tokens.len() ==> (#[trigger] assemble(
                input,
            ).tokens[i]).spec_range().end <= (#[trigger] assemble(input).tokens[j]).spec_range().start,
        forall|i: int, j: int|
            0 <= i < j < assemble(input).errors.len() ==> (#[trigger] assemble(
                input,
            ).errors[i]).range.end <= (#[trigger] assemble(input).errors[j]).range.start,
        forall|i: int, j: int|
            0 <= i < assemble(input).tokens.len() && 0 <= j < assemble(input).errors.len() ==> {
                ||| (#[trigger] assemble(input).tokens[i]).spec_range().end <= (#[trigger] assemble(
                    input,
                ).errors[j]).range.start
                ||| assemble(input).errors[j].range.end <= assemble(
                    input,
                ).tokens[i].spec_range().start
            },
{
    lemma_ranges_follow(input, input.len() as int);
}

/// The range holds offset `p`.
pub open spec fn holds(range: StartEnd, p: int) -> bool {
    range.start <= p < range.end
}

/// Offset `p` of the input lies in the range of one of its tokens or of one
/// of its diagnostics.
pub open spec fn is_read(input: Seq<InputToken>, p: int) -> bool {
    ||| exists|i: int|
        0 <= i < assemble(input).tokens.len() && holds(
            (#[trigger] assemble(input).tokens[i]).spec_range(),
            p,
        )
    ||| exists|j: int|
        0 <= j < assemble(input).errors.len() && holds(
            (#[trigger] assemble(input).errors[j]).range,
            p,
        )
}

/// The first offset of the run of letters, or of digits, that reaches `p`.
pub open spec fn run_start(input: Seq<InputToken>, p: int, letters: bool) -> int
    decreases p,
{
    if 0 < p <= input.len() && in_run(input[p - 1], letters) {
        run_start(input, p - 1, letters)
    } else {
        p
    }
}

/// A run that reaches `p` begins at or in front of `p`, behind a token that
/// is not of the run, and ends behind `p`.
proof fn lemma_run_start(input: Seq<InputToken>, p: int, letters: bool)
    requires
        0 <= p < input.len(),
        in_run(input[p], letters),
    ensures
        0 <= run_start(input, p, letters) <= p,
        in_run(input[run_start(input, p, letters)], letters),
        run_start(input, p, letters) > 0 ==> !in_run(
            input[run_start(input, p, letters) - 1],
            letters,
        ),
        run_end(input, run_start(input, p, letters), letters) == run_end(input, p, letters),
        p < run_end(input, p, letters) <= input.len(),
    decreases p,
{
    lemma_run_end_bounds(input, p + 1, letters);
    if p > 0 && in_run(input[p - 1], letters) {
        lemma_run_start(input, p - 1, letters);
    }
}

/// What the character at `pos` gives to the stream is among the tokens, or
/// among the diagnostics, of every longer part of the input.
proof fn lemma_item_is_assembled(input: Seq<InputToken>, pos: int, n: int)
    requires
        0 <= pos < n <= input.len(),
    ensures
        item_at(input, pos) matches Item::Token(t) ==> assembled(input, n).tokens.contains(t),
        item_at(input, pos) matches Item::Problem(d) ==> assembled(input, n).errors.contains(d),
    decreases n,
{
    reveal(assembled);
    let before = assembled(input, n - 1);
    let after = assembled(input, n);
    assert(after == before.with(item_at(input, n - 1)));
    if pos == n - 1 {
        match item_at(input, pos) {
            Item::Token(t) => {
                assert(after.tokens[before.tokens.len() as int] == t);
            },
            Item::Problem(d) => {
                assert(after.errors[before.errors.len() as int] == d);
            },
            Item::Nothing => {},
        }
    } else {
        lemma_item_is_assembled(input, pos, n - 1);
        match item_at(input, pos) {
            Item::Token(t) => {
                let i = choose|i: int| 0 <= i < before.tokens.len() && before.tokens[i] == t;
                assert(after.tokens[i] == t);
            },
            Item::Problem(d) => {
                let j = choose|j: int| 0 <= j < before.errors.len() && before.errors[j] == d;
                assert(after.errors[j] == d);
            },
            Item::Nothing => {},
        }
    }
}

/// Every character of the input that is no blank lies in the range of a
/// token or of a diagnostic: nothing but blanks is passed over.
pub proof fn lemma_every_character_is_read(input: Seq<InputToken>, p: int)
    requires
        input.len() <= usize::MAX,
        0 <= p < input.len(),
        !(input[p] is Space),
    ensures
        is_read(input, p),
{
    let n = input.len() as int;
    let q = match input[p] {
        InputToken::Letter(_) => {
            lemma_run_start(input, p, true);
            run_start(input, p, true)
        },
        InputToken::Digit(_) => {
            lemma_run_start(input, p, false);
            run_start(input, p, false)
        },
        _ => p,
    };
    lemma_item_range(input, q);
    lemma_item_is_assembled(input, q, n);
    match item_at(input, q) {
        Item::Token(t) => {
            let i = choose|i: int|
                0 <= i < assemble(input).tokens.len() && assemble(input).tokens[i] == t;
            assert(holds(assemble(input).tokens[i].spec_range(), p));
        },
        Item::Problem(d) => {
            let j = choose|j: int|
                0 <= j < assemble(input).errors.len() && assemble(input).errors[j] == d;
            assert(holds(assemble(input).errors[j].range, p));
        },
        Item::Nothing => {},
    }
}

/// Every number among the tokens of an input lies between 0 and `2^63 - 1`:
/// no token read from a text holds a negative number.
pub proof fn lemma_numbers_are_not_negative(input: Seq<InputToken>, n: int)
    requires
        0 <= n <= input.len(),
    ensures
        forall|i: int|
            0 <= i < assembled(input, n).tokens.len() ==> (#[trigger] assembled(
                input,
                n,
            ).tokens[i] matches ParseToken::Number(p) ==> 0 <= p.0),
    decreases n,
{
    reveal(assembled);
    if n > 0 {
        lemma_numbers_are_not_negative(input, n - 1);
        let before = assembled(input, n - 1);
        let after = assembled(input, n);
        let pos = n - 1;
        assert(after == before.with(item_at(input, pos)));
        lemma_token_number_is_not_negative(
            source_text(input.subrange(pos, run_end(input, pos, true))),
            span(pos, run_end(input, pos, true)),
        );
        lemma_token_number_is_not_negative(
            source_text(input.subrange(pos, run_end(input, pos, false))),
            span(pos, run_end(input, pos, false)),
        );
        assert forall|i: int| 0 <= i < after.tokens.len() implies (#[trigger] after.tokens[i] matches ParseToken::Number(
            p,
        ) ==> 0 <= p.0) by {
            if i < before.tokens.len() {
                assert(after.tokens[i] == before.tokens[i]);
            }
        }
    }
}

/// Every token that breaks a rule is reported, with its own range and the
/// message of the rule.
pub proof fn lemma_complaint_is_reported(s: Seq<ParseToken>, idx: int, n: int)
    requires
        0 <= idx < n <= s.len(),
        complaint_at(s, idx) is Some,
    ensures
        violations(s, n).contains(
            Diagnostic { range: s[idx].spec_range(), msg: complaint_at(s, idx)->0 },
        ),
    decreases n,
{
    let d = Diagnostic { range: s[idx].spec_range(), msg: complaint_at(s, idx)->0 };
    if idx == n - 1 {
        let before = violations(s, n - 1);
        assert(violations(s, n) == before.push(d));
        assert(before.push(d)[before.len() as int] == d);
    } else {
        lemma_complaint_is_reported(s, idx, n - 1);
        let before = violations(s, n - 1);
        let i = choose|i: int| 0 <= i < before.len() && before[i] == d;
        if complaint_at(s, n - 1) is Some {
            let last = Diagnostic {
                range: s[n - 1].spec_range(),
                msg: complaint_at(s, n - 1)->0,
            };
            assert(before.push(last)[i] == d);
        }
    }
}

/// An operator that neither a number nor an opening bracket follows is
/// reported as lacking its operand, with the range of the operator. Only an
/// operator other than minus at the very front is reported as misplaced
/// instead.
pub proof fn lemma_operator_without_operand_is_reported(s: Seq<ParseToken>, idx: int)
    requires
        0 <= idx < s.len(),
        s[idx] is Op,
        idx > 0 || s[idx].is_op(Operator::Minus),
        !precedes_operand(s, idx),
    ensures
        violations(s, s.len() as int).contains(
            Diagnostic { range: s[idx].spec_range(), msg: msg_operand_missing() },
        ),
{
    lemma_complaint_is_reported(s, idx, s.len() as int);
}

/// An opening bracket that is never closed is reported, with the range of
/// the bracket.
pub proof fn lemma_open_bracket_is_reported(s: Seq<ParseToken>, idx: int)
    requires
        0 <= idx < s.len(),
        s[idx] is Open,
        !has_close(s, idx),
    ensures
        violations(s, s.len() as int).contains(
            Diagnostic { range: s[idx].spec_range(), msg: msg_close_missing() },
        ),
{
    lemma_complaint_is_reported(s, idx, s.len() as int);
}

/// Collects the characters of the run that begins at `start`.
fn take_run(input: &InputStream, start: usize, letters: bool) -> (r: (Vec<char>, usize))
    requires
        start < input@.len(),
        in_run(input@[start as int], letters),
    ensures
        r.1 == run_end(input@, start as int, letters),
        start < r.1 <= input@.len(),
        r.0@ == source_text(input@.subrange(start as int, r.1 as int)),
        forall|k: int| start <= k < r.1 ==> in_run(#[trigger] input@[k], letters),
        r.1 < input@.len() ==> !in_run(input@[r.1 as int], letters),
{
    let n = input.len();
    let mut literal: Vec<char> = Vec::new();
    let mut end: usize = start;
    let mut done = false;
    while !done
        invariant
            n == input@.len(),
            start <= end <= n,
            start < n,
            in_run(input@[start as int], letters),
            run_end(input@, start as int, letters) == run_end(input@, end as int, letters),
            literal@ == source_text(input@.subrange(start as int, end as int)),
            forall|k: int| start <= k < end ==> in_run(#[trigger] input@[k], letters),
            done ==> start < end && run_end(input@, end as int, letters) == end,
        decreases n - end + (if done { 0int } else { 1int }),
    {
        if end >= n {
            done = true;
        } else {
            match run_char(input.get(end), letters) {
                Some(c) => {
                    literal.push(c);
                    assert(literal@ == source_text(input@.subrange(start as int, end + 1))) by {
                        assert(source_text(input@.subrange(start as int, end + 1)) =~= source_text(
                            input@.subrange(start as int, end as int),
                        ).push(source_char(input@[end as int])));
                    }
                    end += 1;
                },
                None => {
                    done = true;
                },
            }
        }
    }
    proof {
        if end < n {
            lemma_run_end_bounds(input@, end + 1, letters);
        }
    }
    (literal, end)
}

fn symbol_of(c: char, range: StartEnd) -> (r: Option<ParseToken>)
    ensures
        r == symbol_token(c, range),
{
    if c == '+' {
        Some(ParseToken::Op((Operator::Plus, range)))
    } else if c == '-' {
        Some(ParseToken::Op((Operator::Minus, range)))
    } else if c == '*' {
        Some(ParseToken::Op((Operator::Multiply, range)))
    } else if c == '/' {
        Some(ParseToken::Op((Operator::Divide, range)))
    } else if c == '(' {
        Some(ParseToken::Open(range))
    } else if c == ')' {
        Some(ParseToken::Close(range))
    } else {
        None
    }
}

/// Adds a diagnostic to a vector.
fn report(errors: &mut Vec<ErrorStruct>, range: StartEnd, msg: String)
    ensures
        diagnostics(final(errors)@) == diagnostics(old(errors)@).push(
            Diagnostic { range, msg: msg@ },
        ),
{
    let ghost d = Diagnostic { range, msg: msg@ };
    errors.push(ErrorStruct::new(range, msg));
    assert(diagnostics(errors@) =~= diagnostics(old(errors)@).push(d));
}

/// The tokens of one expression, in reading order, with the classified input
/// that they were read from.
#[derive(Debug, Clone, PartialEq, Eq)]
pub struct ParseStream {
    data: Vec<ParseToken>,
    input: InputStream,
}

/// What a [`ParseStream`] holds: its tokens and the classified input that
/// they were read from.
pub struct ParseStreamView {
    pub tokens: Seq<ParseToken>,
    pub input: Seq<InputToken>,
}

impl View for ParseStream {
    type V = ParseStreamView;

    closed spec fn view(&self) -> ParseStreamView {
        ParseStreamView { tokens: self.data@, input: self.input@ }
    }
}

impl ParseStream {
    pub fn new() -> (r: Self)
        ensures
            r@.tokens == Seq::<ParseToken>::empty(),
            r@.input == Seq::<InputToken>::empty(),
    {
        Self { data: Vec::<ParseToken>::new(), input: InputStream::new() }
    }

    /// Assembles the tokens of a classified input, or collects a diagnostic
    /// for every character, word and number that stands for no token.
    pub fn from(input: &InputStream) -> (r: Result<Self, Error>)
        ensures
            match r {
                Ok(stream) => {
                    &&& assemble(input@).errors.len() == 0
                    &&& stream@.tokens == assemble(input@).tokens
                    &&& stream@.input == input@
                },
                Err(e) => {
                    &&& assemble(input@).errors.len() > 0
                    &&& e@ == ErrorView::TokenStream(input@, assemble(input@).errors)
                },
            },
    {
        let n = input.len();
        let mut data: Vec<ParseToken> = Vec::new();
        let mut errors: Vec<ErrorStruct> = Vec::new();
        let mut idx: usize = 0;
        proof {
            reveal(assembled);
        }
        while idx < n
            invariant
                n == input@.len(),
                idx <= n,
                data@ == assembled(input@, idx as int).tokens,
                diagnostics(errors@) == assembled(input@, idx as int).errors,
                0 < idx < n ==> !(input@[idx - 1] is Letter && input@[idx as int] is Letter),
                0 < idx < n ==> !(input@[idx - 1] is Digit && input@[idx as int] is Digit),
            decreases n - idx,
        {
            proof {
                reveal(assembled);
            }
            match input.get(idx) {
                InputToken::Space => {
                    idx += 1;
                },
                InputToken::Letter(_) => {
                    let (literal, end) = take_run(input, idx, true);
                    let range = StartEnd::from(idx, end);
                    match word_of(literal.as_slice(), range) {
                        Ok(t) => data.push(t),
                        Err(msg) => report(&mut errors, range, msg),
                    }
                    proof {
                        lemma_run_gives_one_item(input@, idx as int, end as int, true);
                    }
                    idx = end;
                },
                InputToken::Digit(_) => {
                    let (literal, end) = take_run(input, idx, false);
                    let range = StartEnd::from(idx, end);
                    match number_of(literal.as_slice(), range) {
                        Ok(t) => data.push(t),
                        Err(msg) => report(&mut errors, range, msg),
                    }
                    proof {
                        lemma_run_gives_one_item(input@, idx as int, end as int, false);
                    }
                    idx = end;
                },
                InputToken::Symbol(c) => {
                    let range = StartEnd::from(idx, idx + 1);
                    match symbol_of(c, range) {
                        Some(t) => data.push(t),
                        None => report(&mut errors, range, "Unbekanntes Zeichen".to_owned()),
                    }
                    idx += 1;
                },
                InputToken::Whatever(_) => {
                    report(
                        &mut errors,
                        StartEnd::from(idx, idx + 1),
                        "Unbekanntes Zeichen".to_owned(),
                    );
                    idx += 1;
                },
            }
        }
        if errors.len() > 0 {
            return Err(Error::TokenStream(input.clone(), errors));
        }
        Ok(Self { data, input: input.clone() })
    }

    /// The message about token `idx`, if it breaks a rule.
    fn complaint(&self, idx: usize) -> (r: Option<String>)
        requires
            idx < self@.tokens.len(),
        ensures
            match r {
                Some(msg) => complaint_at(self@.tokens, idx as int) == Some(msg@),
                None => complaint_at(self@.tokens, idx as int) is None,
            },
    {
        let n = self.data.len();
        let operand_follows = idx + 1 < n && match self.data[idx + 1] {
            ParseToken::Number(_) => true,
            ParseToken::Open(_) => true,
            _ => false,
        };
        match self.data[idx] {
            ParseToken::Number(_) => {
                let allowed = idx == 0 || match self.data[idx - 1] {
                    ParseToken::Op(_) => true,
                    ParseToken::Open(_) => true,
                    _ => false,
                };
                if allowed {
                    None
                } else {
                    Some("Operand hier nicht möglich".to_owned())
                }
            },
            ParseToken::Op(p) => {
                let minus = match p.0 {
                    Operator::Minus => true,
                    _ => false,
                };
                if idx == 0 && !minus {
                    Some("Operator hier nicht möglich".to_owned())
                } else if operand_follows {
                    None
                } else {
                    Some("Operator hat keinen Operanden".to_owned())
                }
            },
            ParseToken::Open(_) => match self.find_close(idx) {
                Some(_) => None,
                None => Some("Schließende Klammer fehlt".to_owned()),
            },
            ParseToken::Close(_) => match find_open_idx(self.data.as_slice(), idx) {
                Some(_) => None,
                None => Some("Öffnende Klammer fehlt".to_owned()),
            },
        }
    }

    /// Checks every token against its neighbours and every bracket for its
    /// partner, and collects a diagnostic for every token that breaks a rule.
    pub fn validate(&self) -> (r: Result<(), Error>)
        ensures
            match r {
                Ok(_) => valid(self@.tokens),
                Err(e) => {
                    &&& !valid(self@.tokens)
                    &&& e@ == ErrorView::TokenStream(
                        self@.input,
                        violations(self@.tokens, self@.tokens.len() as int),
                    )
                },
            },
    {
        let n = self.data.len();
        let mut error_vec: Vec<ErrorStruct> = Vec::new();
        let mut idx: usize = 0;
        while idx < n
            invariant
                n == self@.tokens.len(),
                idx <= n,
                diagnostics(error_vec@) == violations(self@.tokens, idx as int),
            decreases n - idx,
        {
            match self.complaint(idx) {
                Some(msg) => report(&mut error_vec, self.data[idx].range(), msg),
                None => {},
            }
            idx += 1;
        }
        proof {
            lemma_valid_has_no_violations(self@.tokens, n as int);
        }
        if error_vec.len() > 0 {
            return Err(Error::TokenStream(self.input.clone(), error_vec));
        }
        Ok(())
    }

    /// Finds the closing bracket for the bracket that opens at `idx`.
    pub fn find_close(&self, idx: usize) -> (r: Option<usize>)
        ensures
            match r {
                Some(j) => has_close(self@.tokens, idx as int) && j == close_index(
                    self@.tokens,
                    idx as int,
                ),
                None => !has_close(self@.tokens, idx as int),
            },
    {
        find_close_idx(self.data.as_slice(), idx)
    }

    pub fn push(&mut self, token: ParseToken)
        ensures
            final(self)@.tokens == old(self)@.tokens.push(token),
            final(self)@.input == old(self)@.input,
    {
        self.data.push(token);
    }

    pub fn last(&self) -> (r: Option<&ParseToken>)
        ensures
            match r {
                Some(t) => self@.tokens.len() > 0 && *t == self@.tokens.last(),
                None => self@.tokens.len() == 0,
            },
    {
        let n = self.data.len();
        if n > 0 {
            Some(&self.data[n - 1])
        } else {
            None
        }
    }

    pub fn clear(&mut self)
        ensures
            final(self)@.tokens == Seq::<ParseToken>::empty(),
            final(self)@.input == old(self)@.input,
    {
        self.data.clear();
    }

    pub fn len(&self) -> (n: usize)
        ensures
            n == self@.tokens.len(),
    {
        self.data.len()
    }

    /// The classified input that the tokens were read from.
    pub fn input(&self) -> (r: &InputStream)
        ensures
            r@ == self@.input,
    {
        &self.input
    }

    /// The tokens as a slice.
    pub fn as_slice(&self) -> (r: &[ParseToken])
        ensures
            r@ == self@.tokens,
    {
        self.data.as_slice()
    }

    pub fn iter(&self) -> (it: std::slice::Iter<'_, ParseToken>)
        ensures
            it.remaining() == self@.tokens.as_ref(),
    {
        let slice = self.data.as_slice();
        let it = slice.iter();
        proof {
            vstd::std_specs::slice::axiom_spec_slice_iter(slice);
        }
        it
    }
}

} // verus!
