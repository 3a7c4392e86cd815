//! Decoding one word into an expression token: keywords, simple numerals,
//! and compound numerals by their morphemes.

use vstd::prelude::*;
use crate::parse::tree::{build_tree, ParseTree};
use crate::stream::parse::ParseStream;
use crate::stream::word::{lemma_word_has_plain_units, word_tokens, WordTokenStream};
use crate::text::{chars_of, parse_unsigned, unsigned_literal};
use crate::token::{ParseToken, WordToken};
use crate::types::{Operator, StartEnd};

verus! {

/// The message for a word that is no keyword and no numeral.
pub open spec fn msg_unknown_word() -> Seq<char> {
    "unbekanntes Wort"@
}

/// The message for digits that denote no number of 63 bits.
pub open spec fn msg_bad_number() -> Seq<char> {
    "konnte Zahl nicht parsen"@
}

/// What one morpheme of a compound numeral adds to the expression that
/// stands for the numeral.
#[derive(Debug, Copy, Clone, PartialEq, Eq, Structural)]
pub enum Part {
    /// A number that begins the numeral or follows `und`.
    Value(i64),
    /// The `und` between units and tens: a plus sign.
    Join,
    /// A number added to what stands before it.
    Add(i64),
    /// A factor of the number just before it.
    Times(i64),
    /// A thousand: everything before it, taken as one number, times 1000.
    Thousand,
}

/// The number of a unit or simple numeral as the number of a token, where
/// it fits 63 bits.
pub open spec fn token_number(n: u64) -> Option<i64> {
    if n <= i64::MAX {
        Some(n as i64)
    } else {
        None
    }
}

/// The units `drei` to `neun`.
pub open spec fn is_unit_from_three(t: WordToken) -> bool {
    t matches WordToken::Number(n) && 3 <= n <= 9
}

/// What the first morpheme of a numeral adds. A numeral begins with a unit,
/// with `zehn` or with one of the tens.
pub open spec fn first_part(cur: WordToken) -> Option<Part> {
    match cur {
        WordToken::Number(n) => match token_number(n) {
            Some(v) => Some(Part::Value(v)),
            None => None,
        },
        WordToken::Ein => Some(Part::Value(1)),
        WordToken::Zehn => Some(Part::Value(10)),
        WordToken::Zwanzig => Some(Part::Value(20)),
        WordToken::Sechzig => Some(Part::Value(60)),
        WordToken::Siebzig => Some(Part::Value(70)),
        _ => None,
    }
}

/// What a morpheme adds behind the morpheme `prev` and, where there is one,
/// in front of the morpheme `next`; `None` where it cannot stand there.
pub open spec fn later_part(prev: WordToken, cur: WordToken, next: Option<WordToken>) -> Option<
    Part,
> {
    match cur {
        WordToken::Und => if prev is Ein || prev is Number {
            Some(Part::Join)
        } else {
            None
        },
        WordToken::Zehn => if is_unit_from_three(prev) {
            Some(Part::Add(10))
        } else {
            None
        },
        WordToken::Zig => if is_unit_from_three(prev) {
            Some(Part::Times(10))
        } else {
            None
        },
        WordToken::SSig => if prev == WordToken::Number(3) {
            Some(Part::Times(10))
        } else {
            None
        },
        WordToken::Hundert => if prev is Ein || prev is Number {
            Some(Part::Times(100))
        } else {
            None
        },
        WordToken::Tausend => if prev is Ein || prev is Number || prev is Zehn || prev is Zwanzig
            || prev is SSig || prev is Zig || prev is Hundert {
            Some(Part::Thousand)
        } else {
            None
        },
        WordToken::Number(n) => match token_number(n) {
            Some(v) => if prev is Hundert || prev is Tausend {
                Some(Part::Add(v))
            } else if prev is Und && ((n == 3 && next == Some(WordToken::SSig)) || (n > 3
                && next == Some(WordToken::Zig))) {
                Some(Part::Value(v))
            } else {
                None
            },
            None => None,
        },
        WordToken::Eins => if prev is Hundert || prev is Tausend {
            Some(Part::Add(1))
        } else {
            None
        },
        WordToken::Elf => if prev is Hundert || prev is Tausend {
            Some(Part::Add(11))
        } else {
            None
        },
        WordToken::Zwoelf => if prev is Hundert || prev is Tausend {
            Some(Part::Add(12))
        } else {
            None
        },
        WordToken::Zwanzig => if prev is Hundert || prev is Tausend {
            Some(Part::Add(20))
        } else if prev is Und {
            Some(Part::Value(20))
        } else {
            None
        },
        WordToken::Sechzig => if prev is Hundert || prev is Tausend {
            Some(Part::Add(60))
        } else if prev is Und {
            Some(Part::Value(60))
        } else {
            None
        },
        WordToken::Siebzig => if prev is Hundert || prev is Tausend {
            Some(Part::Add(70))
        } else if prev is Und {
            Some(Part::Value(70))
        } else {
            None
        },
        WordToken::Ein => if (prev is Hundert && (next == Some(WordToken::Und) || next == Some(
            WordToken::Tausend,
        ))) || (prev is Tausend && (next == Some(WordToken::Hundert) || next == Some(
            WordToken::Und,
        ))) {
            Some(Part::Add(1))
        } else {
            None
        },
        _ => None,
    }
}

/// What a morpheme adds between its neighbours.
pub open spec fn part(prev: Option<WordToken>, cur: WordToken, next: Option<WordToken>) -> Option<
    Part,
> {
    match prev {
        None => first_part(cur),
        Some(p) => later_part(p, cur, next),
    }
}

/// What morpheme `i` of a numeral adds.
pub open spec fn part_at(ms: Seq<WordToken>, i: int) -> Option<Part> {
    part(
        if i == 0 {
            None
        } else {
            Some(ms[i - 1])
        },
        ms[i],
        if i + 1 < ms.len() {
            Some(ms[i + 1])
        } else {
            None
        },
    )
}

/// The integer value of a sequence of tokens: that of its tree.
pub open spec fn tokens_value(tokens: Seq<ParseToken>) -> Option<i64> {
    match build_tree(tokens) {
        Ok(tree) => match tree.integer_value() {
            Ok(v) => Some(v as i64),
            Err(_) => None,
        },
        Err(_) => None,
    }
}

/// The tokens of a numeral after one more part.
pub open spec fn extend(tokens: Seq<ParseToken>, p: Part, range: StartEnd) -> Option<
    Seq<ParseToken>,
> {
    match p {
        Part::Value(n) => Some(tokens.push(ParseToken::Number((n, range)))),
        Part::Join => Some(tokens.push(ParseToken::Op((Operator::Plus, range)))),
        Part::Add(n) => Some(
            tokens.push(ParseToken::Op((Operator::Plus, range))).push(
                ParseToken::Number((n, range)),
            ),
        ),
        Part::Times(n) => Some(
            tokens.push(ParseToken::Op((Operator::Multiply, range))).push(
                ParseToken::Number((n, range)),
            ),
        ),
        Part::Thousand => match tokens_value(tokens) {
            Some(v) => Some(
                seq![
                    ParseToken::Number((v, range)),
                    ParseToken::Op((Operator::Multiply, range)),
                    ParseToken::Number((1000, range)),
                ],
            ),
            None => None,
        },
    }
}

/// The expression that stands for the first `n` morphemes of a numeral, as
/// tokens: numbers joined by plus and times signs. `None` where one of the
/// morphemes cannot stand where it does, or where the thousands do not fit
/// 64 bits.
pub open spec fn reduce(ms: Seq<WordToken>, n: int, range: StartEnd) -> Option<Seq<ParseToken>>
    decreases n,
{
    if n <= 0 {
        Some(Seq::empty())
    } else {
        match reduce(ms, n - 1, range) {
            None => None,
            Some(tokens) => match part_at(ms, n - 1) {
                None => None,
                Some(p) => extend(tokens, p, range),
            },
        }
    }
}

/// The integer value of the expression that stands for a numeral.
pub open spec fn expression_value(ms: Seq<WordToken>, range: StartEnd) -> Option<i64> {
    match reduce(ms, ms.len() as int, range) {
        Some(tokens) => tokens_value(tokens),
        None => None,
    }
}

/// A number while it is read: the sum of the terms that are complete, and
/// the term that may still be multiplied.
pub struct Reading {
    pub done: int,
    pub term: int,
}

/// The number read so far after one more part. A number begins a new term,
/// a factor multiplies the term, and a thousand multiplies everything read
/// so far.
pub open spec fn read_part(r: Reading, p: Part) -> Reading {
    match p {
        Part::Value(n) => Reading { done: r.done + r.term, term: n as int },
        Part::Join => r,
        Part::Add(n) => Reading { done: r.done + r.term, term: n as int },
        Part::Times(n) => Reading { done: r.done, term: r.term * n },
        Part::Thousand => Reading { done: 0, term: (r.done + r.term) * 1000 },
    }
}

/// The number read from the first `n` morphemes of a numeral.
pub open spec fn reading(ms: Seq<WordToken>, n: int) -> Reading
    decreases n,
{
    if n <= 0 {
        Reading { done: 0, term: 0 }
    } else {
        match part_at(ms, n - 1) {
            Some(p) => read_part(reading(ms, n - 1), p),
            None => reading(ms, n - 1),
        }
    }
}

/// The morphemes are a numeral: each may stand where it does, and the last
/// is not `und`.
pub open spec fn is_numeral(ms: Seq<WordToken>) -> bool {
    &&& ms.len() >= 1
    &&& forall|i: int| 0 <= i < ms.len() ==> (#[trigger] part_at(ms, i)) is Some
    &&& !(ms.last() is Und)
}

/// The number that a numeral denotes by the places of its morphemes.
pub open spec fn place_value(ms: Seq<WordToken>) -> int {
    reading(ms, ms.len() as int).done + reading(ms, ms.len() as int).term
}

/// The number that the morphemes of a compound numeral denote, where they
/// are a numeral and the number fits 63 bits.
pub open spec fn numeral_value(ms: Seq<WordToken>) -> Option<i64> {
    if is_numeral(ms) && place_value(ms) <= i64::MAX {
        Some(place_value(ms) as i64)
    } else {
        None
    }
}

/// Every unit among the morphemes is one of `zwei` to `neun`, as in every
/// compound word.
pub open spec fn has_plain_units(ms: Seq<WordToken>) -> bool {
    forall|i: int|
        0 <= i < ms.len() ==> (#[trigger] ms[i] matches WordToken::Number(n) ==> 2 <= n <= 9)
}

/// The expression token of a word that is one keyword or simple numeral.
pub open spec fn keyword_token(t: WordToken, range: StartEnd) -> Option<ParseToken> {
    match t {
        WordToken::Plus => Some(ParseToken::Op((Operator::Plus, range))),
        WordToken::Minus => Some(ParseToken::Op((Operator::Minus, range))),
        WordToken::Multiply => Some(ParseToken::Op((Operator::Multiply, range))),
        WordToken::Divide => Some(ParseToken::Op((Operator::Divide, range))),
        WordToken::Open => Some(ParseToken::Open(range)),
        WordToken::Close => Some(ParseToken::Close(range)),
        WordToken::Number(n) => match token_number(n) {
            Some(v) => Some(ParseToken::Number((v, range))),
            None => None,
        },
        _ => None,
    }
}

/// The expression token that a word stands for.
pub open spec fn word_token(w: Seq<char>, range: StartEnd) -> Option<ParseToken> {
    match word_tokens(w) {
        None => None,
        Some(ms) => if ms.len() == 1 {
            keyword_token(ms[0], range)
        } else {
            match numeral_value(ms) {
                Some(v) => Some(ParseToken::Number((v, range))),
                None => None,
            }
        },
    }
}

/// The expression token that a run of digits stands for: the number that
/// the digits denote, where it fits the 63 bits of a token's number. Larger
/// numbers have no token.
pub open spec fn number_token(digits: Seq<char>, range: StartEnd) -> Option<ParseToken> {
    match unsigned_literal(digits) {
        Some(n) => match token_number(n) {
            Some(v) => Some(ParseToken::Number((v, range))),
            None => None,
        },
        None => None,
    }
}

/// The number read from morphemes is never negative.
pub proof fn lemma_reading_is_not_negative(ms: Seq<WordToken>, n: int)
    ensures
        reading(ms, n).done >= 0,
        reading(ms, n).term >= 0,
    decreases n,
{
    if n > 0 {
        lemma_reading_is_not_negative(ms, n - 1);
        let r = reading(ms, n - 1);
        match part_at(ms, n - 1) {
            Some(Part::Times(c)) => {
                assert(r.term * c >= 0) by (nonlinear_arith)
                    requires
                        r.term >= 0,
                        c >= 0,
                ;
            },
            _ => {},
        }
    }
}

/// The number of a token that a word or a run of digits stands for is never
/// negative.
pub proof fn lemma_token_number_is_not_negative(w: Seq<char>, range: StartEnd)
    ensures
        word_token(w, range) matches Some(ParseToken::Number(p)) ==> 0 <= p.0,
        number_token(w, range) matches Some(ParseToken::Number(p)) ==> 0 <= p.0,
{
    match word_tokens(w) {
        Some(ms) => {
            lemma_reading_is_not_negative(ms, ms.len() as int);
        },
        None => {},
    }
}

/// Once a morpheme has failed, the numeral has no expression.
pub proof fn lemma_reduce_fails_on(ms: Seq<WordToken>, n: int, m: int, range: StartEnd)
    requires
        reduce(ms, n, range) is None,
        n <= m,
    ensures
        reduce(ms, m, range) is None,
    decreases m - n,
{
    if n < m {
        lemma_reduce_fails_on(ms, n, m - 1, range);
    }
}

fn token_number_of(n: u64) -> (r: Option<i64>)
    ensures
        r == token_number(n),
{
    if n > i64::MAX as u64 {
        None
    } else {
        Some(n as i64)
    }
}

fn first_part_of(cur: WordToken) -> (r: Option<Part>)
    ensures
        r == first_part(cur),
{
    match cur {
        WordToken::Number(n) => match token_number_of(n) {
            Some(v) => Some(Part::Value(v)),
            None => None,
        },
        WordToken::Ein => Some(Part::Value(1)),
        WordToken::Zehn => Some(Part::Value(10)),
        WordToken::Zwanzig => Some(Part::Value(20)),
        WordToken::Sechzig => Some(Part::Value(60)),
        WordToken::Siebzig => Some(Part::Value(70)),
        _ => None,
    }
}

fn is_token(t: Option<WordToken>, other: WordToken) -> (r: bool)
    ensures
        r == (t == Some(other)),
{
    match t {
        Some(x) => x == other,
        None => false,
    }
}

fn later_part_of(prev: WordToken, cur: WordToken, next: Option<WordToken>) -> (r: Option<Part>)
    ensures
        r == later_part(prev, cur, next),
{
    let after_unit = match prev {
        WordToken::Ein | WordToken::Number(_) => true,
        _ => false,
    };
    let after_from_three = match prev {
        WordToken::Number(n) => 3 <= n && n <= 9,
        _ => false,
    };
    let after_power = match prev {
        WordToken::Hundert | WordToken::Tausend => true,
        _ => false,
    };
    let after_und = match prev {
        WordToken::Und => true,
        _ => false,
    };
    match cur {
        WordToken::Und => if after_unit {
            Some(Part::Join)
        } else {
            None
        },
        WordToken::Zehn => if after_from_three {
            Some(Part::Add(10))
        } else {
            None
        },
        WordToken::Zig => if after_from_three {
            Some(Part::Times(10))
        } else {
            None
        },
        WordToken::SSig => if prev == WordToken::Number(3) {
            Some(Part::Times(10))
        } else {
            None
        },
        WordToken::Hundert => if after_unit {
            Some(Part::Times(100))
        } else {
            None
        },
        WordToken::Tausend => {
            let allowed = match prev {
                WordToken::Ein
                | WordToken::Number(_)
                | WordToken::Zehn
                | WordToken::Zwanzig
                | WordToken::SSig
                | WordToken::Zig
                | WordToken::Hundert => true,
                _ => false,
            };
            if allowed {
                Some(Part::Thousand)
            } else {
                None
            }
        },
        WordToken::Number(n) => match token_number_of(n) {
            Some(v) => if after_power {
                Some(Part::Add(v))
            } else if after_und && ((n == 3 && is_token(next, WordToken::SSig)) || (n > 3
                && is_token(next, WordToken::Zig))) {
                Some(Part::Value(v))
            } else {
                None
            },
            None => None,
        },
        WordToken::Eins => if after_power {
            Some(Part::Add(1))
        } else {
            None
        },
        WordToken::Elf => if after_power {
            Some(Part::Add(11))
        } else {
            None
        },
        WordToken::Zwoelf => if after_power {
            Some(Part::Add(12))
        } else {
            None
        },
        WordToken::Zwanzig => if after_power {
            Some(Part::Add(20))
        } else if after_und {
            Some(Part::Value(20))
        } else {
            None
        },
        WordToken::Sechzig => if after_power {
            Some(Part::Add(60))
        } else if after_und {
            Some(Part::Value(60))
        } else {
            None
        },
        WordToken::Siebzig => if after_power {
            Some(Part::Add(70))
        } else if after_und {
            Some(Part::Value(70))
        } else {
            None
        },
        WordToken::Ein => {
            let after_hundred = match prev {
                WordToken::Hundert => true,
                _ => false,
            };
            let after_thousand = match prev {
                WordToken::Tausend => true,
                _ => false,
            };
            if (after_hundred && (is_token(next, WordToken::Und) || is_token(
                next,
                WordToken::Tausend,
            ))) || (after_thousand && (is_token(next, WordToken::Hundert) || is_token(
                next,
                WordToken::Und,
            ))) {
                Some(Part::Add(1))
            } else {
                None
            }
        },
        _ => None,
    }
}

/// The integer value of the tree of a sequence of tokens.
fn value_of(tokens: &[ParseToken]) -> (r: Option<i64>)
    ensures
        r == tokens_value(tokens@),
{
    match ParseTree::from(tokens) {
        Ok(tree) => match tree.evaluate_integer() {
            Ok(v) => Some(v),
            Err(_) => None,
        },
        Err(_) => None,
    }
}

/// Adds one part to the tokens of a numeral; `false` where a thousand has
/// nothing that it can multiply.
fn extend_with(input: &mut ParseStream, p: Part, range: StartEnd) -> (ok: bool)
    ensures
        match extend(old(input)@.tokens, p, range) {
            Some(tokens) => ok && final(input)@.tokens == tokens,
            None => !ok,
        },
{
    match p {
        Part::Value(n) => {
            input.push(ParseToken::Number((n, range)));
        },
        Part::Join => {
            input.push(ParseToken::Op((Operator::Plus, range)));
        },
        Part::Add(n) => {
            input.push(ParseToken::Op((Operator::Plus, range)));
            input.push(ParseToken::Number((n, range)));
        },
        Part::Times(n) => {
            input.push(ParseToken::Op((Operator::Multiply, range)));
            input.push(ParseToken::Number((n, range)));
        },
        Part::Thousand => {
            let num = match value_of(input.as_slice()) {
                Some(v) => v,
                None => return false,
            };
            input.clear();
            input.push(ParseToken::Number((num, range)));
            input.push(ParseToken::Op((Operator::Multiply, range)));
            input.push(ParseToken::Number((1000, range)));
            assert(input@.tokens == seq![
                ParseToken::Number((num, range)),
                ParseToken::Op((Operator::Multiply, range)),
                ParseToken::Number((1000, range)),
            ]);
        },
    }
    true
}

fn value_behind(t: Option<&WordToken>) -> (r: Option<WordToken>)
    ensures
        r == match t {
            Some(x) => Some(*x),
            None => None,
        },
{
    match t {
        Some(x) => Some(*x),
        None => None,
    }
}

/// Decodes the tokens of one word into an expression token. A compound
/// numeral is decoded by way of the expression that stands for it.
fn decode(stream: &WordTokenStream, range: StartEnd) -> (r: Option<ParseToken>)
    requires
        stream@.len() >= 1,
        stream@.len() >= 2 ==> has_plain_units(stream@),
    ensures
        r == if stream@.len() == 1 {
            keyword_token(stream@[0], range)
        } else {
            match numeral_value(stream@) {
                Some(v) => Some(ParseToken::Number((v, range))),
                None => None,
            }
        },
{
    proof {
        if stream@.len() >= 2 {
            crate::stream::place_value::lemma_expression_has_place_value(stream@, range);
        }
    }
    if stream.len() == 1 {
        return match stream.get(0) {
            WordToken::Plus => Some(ParseToken::Op((Operator::Plus, range))),
            WordToken::Minus => Some(ParseToken::Op((Operator::Minus, range))),
            WordToken::Multiply => Some(ParseToken::Op((Operator::Multiply, range))),
            WordToken::Divide => Some(ParseToken::Op((Operator::Divide, range))),
            WordToken::Open => Some(ParseToken::Open(range)),
            WordToken::Close => Some(ParseToken::Close(range)),
            WordToken::Number(n) => match token_number_of(n) {
                Some(v) => Some(ParseToken::Number((v, range))),
                None => None,
            },
            _ => None,
        };
    }
    let ghost ms = stream@;
    let mut input = ParseStream::new();
    let mut iter = stream.iter_triple();
    while iter.count < iter.len
        invariant
            ms == stream@,
            ms.len() >= 2,
            expression_value(ms, range) == numeral_value(ms),
            iter.inner@ == ms,
            iter.len == ms.len(),
            iter.count <= iter.len,
            reduce(ms, iter.count as int, range) == Some(input@.tokens),
        decreases iter.len - iter.count,
    {
        let ghost at = iter.count as int;
        let (prev, current, next) = match iter.next() {
            Some(triple) => triple,
            None => return None,
        };
        let cur = match current {
            Some(t) => *t,
            None => return None,
        };
        let found = match value_behind(prev) {
            None => first_part_of(cur),
            Some(p) => later_part_of(p, cur, value_behind(next)),
        };
        assert(found == part_at(ms, at));
        let ok = match found {
            Some(p) => extend_with(&mut input, p, range),
            None => false,
        };
        if !ok {
            proof {
                assert(reduce(ms, at + 1, range) is None);
                lemma_reduce_fails_on(ms, at + 1, ms.len() as int, range);
                assert(expression_value(ms, range) is None);
            }
            return None;
        }
    }
    match value_of(input.as_slice()) {
        Some(v) => Some(ParseToken::Number((v, range))),
        None => None,
    }
}

/// Decodes one word into an expression token with the given range, or says
/// that the word is unknown.
pub fn parse_word(literal: &str, range: StartEnd) -> (r: Result<ParseToken, String>)
    ensures
        match r {
            Ok(t) => word_token(literal@, range) == Some(t),
            Err(msg) => word_token(literal@, range) is None && msg@ == msg_unknown_word(),
        },
{
    let chars = chars_of(literal);
    word_of(chars.as_slice(), range)
}

/// Decodes the characters of one word into an expression token.
pub fn word_of(word: &[char], range: StartEnd) -> (r: Result<ParseToken, String>)
    ensures
        match r {
            Ok(t) => word_token(word@, range) == Some(t),
            Err(msg) => word_token(word@, range) is None && msg@ == msg_unknown_word(),
        },
{
    let stream = match WordTokenStream::from_chars(word) {
        Some(s) => s,
        None => return Err("unbekanntes Wort".to_owned()),
    };
    if stream.len() == 0 {
        return Err("unbekanntes Wort".to_owned());
    }
    proof {
        lemma_word_has_plain_units(word@);
    }
    match decode(&stream, range) {
        Some(t) => Ok(t),
        None => Err("unbekanntes Wort".to_owned()),
    }
}

/// Reads a run of digits as a number token with the given range, or says
/// that the digits denote no number.
pub fn parse_number(literal: &str, range: StartEnd) -> (r: Result<ParseToken, String>)
    ensures
        match r {
            Ok(t) => number_token(literal@, range) == Some(t),
            Err(msg) => number_token(literal@, range) is None && msg@ == msg_bad_number(),
        },
{
    let chars = chars_of(literal);
    number_of(chars.as_slice(), range)
}

/// Reads the characters of a run of digits as a number token.
pub fn number_of(digits: &[char], range: StartEnd) -> (r: Result<ParseToken, String>)
    ensures
        match r {
            Ok(t) => number_token(digits@, range) == Some(t),
            Err(msg) => number_token(digits@, range) is None && msg@ == msg_bad_number(),
        },
{
    let number = match parse_unsigned(digits) {
        Some(n) => token_number_of(n),
        None => None,
    };
    match number {
        Some(v) => Ok(ParseToken::Number((v, range))),
        None => Err("konnte Zahl nicht parsen".to_owned()),
    }
}

} // verus!
