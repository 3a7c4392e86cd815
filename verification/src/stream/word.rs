//! Splitting one word into a keyword, a simple numeral, or the morphemes of
//! a compound numeral.

use vstd::prelude::*;
use vstd::std_specs::iter::IteratorSpec;
use crate::iter::TripleIter;
use crate::text::{chars_of, spells};
use crate::token::WordToken;

verus! {

/// The keyword or simple numeral that a whole word spells, if any.
pub open spec fn simple_word(w: Seq<char>) -> Option<WordToken> {
    if w == "plus"@ {
        Some(WordToken::Plus)
    } else if w == "minus"@ {
        Some(WordToken::Minus)
    } else if w == "mal"@ {
        Some(WordToken::Multiply)
    } else if w == "durch"@ {
        Some(WordToken::Divide)
    } else if w == "auf"@ {
        Some(WordToken::Open)
    } else if w == "zu"@ {
        Some(WordToken::Close)
    } else if w == "eins"@ {
        Some(WordToken::Number(1))
    } else if w == "zwei"@ {
        Some(WordToken::Number(2))
    } else if w == "drei"@ {
        Some(WordToken::Number(3))
    } else if w == "vier"@ {
        Some(WordToken::Number(4))
    } else if w == "fünf"@ {
        Some(WordToken::Number(5))
    } else if w == "sechs"@ {
        Some(WordToken::Number(6))
    } else if w == "sieben"@ {
        Some(WordToken::Number(7))
    } else if w == "acht"@ {
        Some(WordToken::Number(8))
    } else if w == "neun"@ {
        Some(WordToken::Number(9))
    } else if w == "zehn"@ {
        Some(WordToken::Number(10))
    } else if w == "elf"@ {
        Some(WordToken::Number(11))
    } else if w == "zwölf"@ {
        Some(WordToken::Number(12))
    } else if w == "zwanzig"@ {
        Some(WordToken::Number(20))
    } else if w == "sechzig"@ {
        Some(WordToken::Number(60))
    } else if w == "siebzig"@ {
        Some(WordToken::Number(70))
    } else {
        None
    }
}

/// The morpheme of a compound numeral that `w` spells, if any.
pub open spec fn morpheme(w: Seq<char>) -> Option<WordToken> {
    if w == "ein"@ {
        Some(WordToken::Ein)
    } else if w == "eins"@ {
        Some(WordToken::Eins)
    } else if w == "zwei"@ {
        Some(WordToken::Number(2))
    } else if w == "drei"@ {
        Some(WordToken::Number(3))
    } else if w == "vier"@ {
        Some(WordToken::Number(4))
    } else if w == "fünf"@ {
        Some(WordToken::Number(5))
    } else if w == "sechzig"@ {
        Some(WordToken::Sechzig)
    } else if w == "sechs"@ {
        Some(WordToken::Number(6))
    } else if w == "siebzig"@ {
        Some(WordToken::Siebzig)
    } else if w == "sieben"@ {
        Some(WordToken::Number(7))
    } else if w == "acht"@ {
        Some(WordToken::Number(8))
    } else if w == "neun"@ {
        Some(WordToken::Number(9))
    } else if w == "zehn"@ {
        Some(WordToken::Zehn)
    } else if w == "elf"@ {
        Some(WordToken::Elf)
    } else if w == "zwölf"@ {
        Some(WordToken::Zwoelf)
    } else if w == "zwanzig"@ {
        Some(WordToken::Zwanzig)
    } else if w == "zig"@ {
        Some(WordToken::Zig)
    } else if w == "ßig"@ {
        Some(WordToken::SSig)
    } else if w == "hundert"@ {
        Some(WordToken::Hundert)
    } else if w == "tausend"@ {
        Some(WordToken::Tausend)
    } else if w == "und"@ {
        Some(WordToken::Und)
    } else {
        None
    }
}

/// The morphemes of `w` from `start` on, where the characters from `start`
/// up to `end` have been read and spell no morpheme yet.
///
/// The characters are read one by one, and the first spelling of a morpheme
/// is taken. Only `ein` waits: before an `s` it reads on, to become `eins`,
/// and at the end of the word it is refused. Characters left over at the end
/// of the word make the whole word fail.
pub open spec fn morphemes_from(w: Seq<char>, start: int, end: int) -> Option<Seq<WordToken>>
    decreases w.len() - end,
{
    if end >= w.len() {
        if start >= end {
            Some(Seq::empty())
        } else {
            None
        }
    } else {
        match morpheme(w.subrange(start, end + 1)) {
            None => morphemes_from(w, start, end + 1),
            Some(t) => if t == WordToken::Ein && end + 1 >= w.len() {
                None
            } else if t == WordToken::Ein && w[end + 1] == 's' {
                morphemes_from(w, start, end + 1)
            } else {
                match morphemes_from(w, end + 1, end + 1) {
                    Some(rest) => Some(seq![t] + rest),
                    None => None,
                }
            },
        }
    }
}

/// The morphemes of a compound numeral: at least two, and all of the word.
pub open spec fn compound_word(w: Seq<char>) -> Option<Seq<WordToken>> {
    match morphemes_from(w, 0, 0) {
        Some(ms) => if ms.len() >= 2 {
            Some(ms)
        } else {
            None
        },
        None => None,
    }
}

/// The tokens of one word: the keyword or simple numeral that the whole word
/// spells, else the morphemes of the compound numeral that it spells.
pub open spec fn word_tokens(w: Seq<char>) -> Option<Seq<WordToken>> {
    match simple_word(w) {
        Some(t) => Some(seq![t]),
        None => compound_word(w),
    }
}

/// How a morpheme is spelled.
pub open spec fn spelling(t: WordToken) -> Seq<char> {
    match t {
        WordToken::Ein => "ein"@,
        WordToken::Eins => "eins"@,
        WordToken::Number(n) => if n == 2 {
            "zwei"@
        } else if n == 3 {
            "drei"@
        } else if n == 4 {
            "vier"@
        } else if n == 5 {
            "fünf"@
        } else if n == 6 {
            "sechs"@
        } else if n == 7 {
            "sieben"@
        } else if n == 8 {
            "acht"@
        } else if n == 9 {
            "neun"@
        } else {
            Seq::empty()
        },
        WordToken::Sechzig => "sechzig"@,
        WordToken::Siebzig => "siebzig"@,
        WordToken::Zehn => "zehn"@,
        WordToken::Elf => "elf"@,
        WordToken::Zwoelf => "zwölf"@,
        WordToken::Zwanzig => "zwanzig"@,
        WordToken::Zig => "zig"@,
        WordToken::SSig => "ßig"@,
        WordToken::Hundert => "hundert"@,
        WordToken::Tausend => "tausend"@,
        WordToken::Und => "und"@,
        _ => Seq::empty(),
    }
}

/// The morphemes spelled one after the other.
pub open spec fn spelled(ms: Seq<WordToken>) -> Seq<char>
    decreases ms.len(),
{
    if ms.len() == 0 {
        Seq::empty()
    } else {
        spelling(ms[0]) + spelled(ms.drop_first())
    }
}

/// The morphemes that a word is split into, from `start` on, spell the word
/// from there on: nothing is left out and nothing is added.
proof fn lemma_morphemes_spell_the_rest(w: Seq<char>, start: int, end: int)
    requires
        0 <= start <= end <= w.len(),
        morphemes_from(w, start, end) is Some,
    ensures
        spelled(morphemes_from(w, start, end)->0) == w.subrange(start, w.len() as int),
    decreases w.len() - end,
{
    let n = w.len() as int;
    if end >= n {
        assert(w.subrange(start, n) =~= Seq::<char>::empty());
    } else {
        match morpheme(w.subrange(start, end + 1)) {
            None => {
                lemma_morphemes_spell_the_rest(w, start, end + 1);
            },
            Some(t) => {
                if t == WordToken::Ein && end + 1 >= n {
                } else if t == WordToken::Ein && w[end + 1] == 's' {
                    lemma_morphemes_spell_the_rest(w, start, end + 1);
                } else {
                    lemma_morphemes_spell_the_rest(w, end + 1, end + 1);
                    let rest = morphemes_from(w, end + 1, end + 1)->0;
                    let all = seq![t] + rest;
                    assert(all.drop_first() =~= rest);
                    assert(spelling(t) == w.subrange(start, end + 1));
                    assert(w.subrange(start, end + 1) + w.subrange(end + 1, n) =~= w.subrange(
                        start,
                        n,
                    ));
                }
            },
        }
    }
}

/// The morphemes of a compound word, spelled one after the other, are the
/// word.
pub proof fn lemma_compound_word_is_spelled(w: Seq<char>)
    requires
        compound_word(w) is Some,
    ensures
        spelled(compound_word(w)->0) == w,
{
    lemma_morphemes_spell_the_rest(w, 0, 0);
    assert(w.subrange(0, w.len() as int) =~= w);
}

/// Every unit among the morphemes of a word is one of `zwei` to `neun`.
proof fn lemma_morphemes_have_plain_units(w: Seq<char>, start: int, end: int)
    requires
        morphemes_from(w, start, end) is Some,
    ensures
        forall|i: int|
            0 <= i < morphemes_from(w, start, end)->0.len() ==> (#[trigger] morphemes_from(
                w,
                start,
                end,
            )->0[i] matches WordToken::Number(n) ==> 2 <= n <= 9),
    decreases w.len() - end,
{
    if end < w.len() {
        match morpheme(w.subrange(start, end + 1)) {
            None => {
                lemma_morphemes_have_plain_units(w, start, end + 1);
            },
            Some(t) => {
                if t == WordToken::Ein && end + 1 >= w.len() {
                } else if t == WordToken::Ein && w[end + 1] == 's' {
                    lemma_morphemes_have_plain_units(w, start, end + 1);
                } else {
                    lemma_morphemes_have_plain_units(w, end + 1, end + 1);
                    let rest = morphemes_from(w, end + 1, end + 1)->0;
                    let all = seq![t] + rest;
                    assert forall|i: int| 0 <= i < all.len() implies (#[trigger] all[i] matches WordToken::Number(
                        n,
                    ) ==> 2 <= n <= 9) by {
                        if i > 0 {
                            assert(all[i] == rest[i - 1]);
                        }
                    }
                }
            },
        }
    }
}

/// Every unit among the morphemes of a compound word is one of `zwei` to
/// `neun`.
pub proof fn lemma_word_has_plain_units(w: Seq<char>)
    ensures
        word_tokens(w) matches Some(ms) ==> (ms.len() >= 2 ==> forall|i: int|
            0 <= i < ms.len() ==> (#[trigger] ms[i] matches WordToken::Number(n) ==> 2 <= n <= 9)),
{
    if simple_word(w) is None && morphemes_from(w, 0, 0) is Some {
        lemma_morphemes_have_plain_units(w, 0, 0);
    }
}

fn simple_word_of(w: &[char]) -> (r: Option<WordToken>)
    ensures
        r == simple_word(w@),
{
    if spells(w, "plus") {
        Some(WordToken::Plus)
    } else if spells(w, "minus") {
        Some(WordToken::Minus)
    } else if spells(w, "mal") {
        Some(WordToken::Multiply)
    } else if spells(w, "durch") {
        Some(WordToken::Divide)
    } else if spells(w, "auf") {
        Some(WordToken::Open)
    } else if spells(w, "zu") {
        Some(WordToken::Close)
    } else if spells(w, "eins") {
        Some(WordToken::Number(1))
    } else if spells(w, "zwei") {
        Some(WordToken::Number(2))
    } else if spells(w, "drei") {
        Some(WordToken::Number(3))
    } else if spells(w, "vier") {
        Some(WordToken::Number(4))
    } else if spells(w, "fünf") {
        Some(WordToken::Number(5))
    } else if spells(w, "sechs") {
        Some(WordToken::Number(6))
    } else if spells(w, "sieben") {
        Some(WordToken::Number(7))
    } else if spells(w, "acht") {
        Some(WordToken::Number(8))
    } else if spells(w, "neun") {
        Some(WordToken::Number(9))
    } else if spells(w, "zehn") {
        Some(WordToken::Number(10))
    } else if spells(w, "elf") {
        Some(WordToken::Number(11))
    } else if spells(w, "zwölf") {
        Some(WordToken::Number(12))
    } else if spells(w, "zwanzig") {
        Some(WordToken::Number(20))
    } else if spells(w, "sechzig") {
        Some(WordToken::Number(60))
    } else if spells(w, "siebzig") {
        Some(WordToken::Number(70))
    } else {
        None
    }
}

fn morpheme_of(w: &[char]) -> (r: Option<WordToken>)
    ensures
        r == morpheme(w@),
{
    if spells(w, "ein") {
        Some(WordToken::Ein)
    } else if spells(w, "eins") {
        Some(WordToken::Eins)
    } else if spells(w, "zwei") {
        Some(WordToken::Number(2))
    } else if spells(w, "drei") {
        Some(WordToken::Number(3))
    } else if spells(w, "vier") {
        Some(WordToken::Number(4))
    } else if spells(w, "fünf") {
        Some(WordToken::Number(5))
    } else if spells(w, "sechzig") {
        Some(WordToken::Sechzig)
    } else if spells(w, "sechs") {
        Some(WordToken::Number(6))
    } else if spells(w, "siebzig") {
        Some(WordToken::Siebzig)
    } else if spells(w, "sieben") {
        Some(WordToken::Number(7))
    } else if spells(w, "acht") {
        Some(WordToken::Number(8))
    } else if spells(w, "neun") {
        Some(WordToken::Number(9))
    } else if spells(w, "zehn") {
        Some(WordToken::Zehn)
    } else if spells(w, "elf") {
        Some(WordToken::Elf)
    } else if spells(w, "zwölf") {
        Some(WordToken::Zwoelf)
    } else if spells(w, "zwanzig") {
        Some(WordToken::Zwanzig)
    } else if spells(w, "zig") {
        Some(WordToken::Zig)
    } else if spells(w, "ßig") {
        Some(WordToken::SSig)
    } else if spells(w, "hundert") {
        Some(WordToken::Hundert)
    } else if spells(w, "tausend") {
        Some(WordToken::Tausend)
    } else if spells(w, "und") {
        Some(WordToken::Und)
    } else {
        None
    }
}

/// The tokens that one word was split into.
#[derive(Debug, Clone, PartialEq, Eq)]
pub struct WordTokenStream {
    data: Vec<WordToken>,
}

impl View for WordTokenStream {
    type V = Seq<WordToken>;

    closed spec fn view(&self) -> Seq<WordToken> {
        self.data@
    }
}

impl WordTokenStream {
    /// Splits one word into its tokens, or finds that it is no word.
    pub fn from(input: &str) -> (r: Option<Self>)
        ensures
            match r {
                Some(stream) => word_tokens(input@) == Some(stream@),
                None => word_tokens(input@) is None,
            },
    {
        let chars = chars_of(input);
        Self::from_chars(chars.as_slice())
    }

    /// Splits the characters of one word into its tokens.
    pub fn from_chars(chars: &[char]) -> (r: Option<Self>)
        ensures
            match r {
                Some(stream) => word_tokens(chars@) == Some(stream@),
                None => word_tokens(chars@) is None,
            },
    {
        let mut data: Vec<WordToken> = Vec::new();
        match simple_word_of(chars) {
            Some(t) => {
                data.push(t);
                assert(data@ == seq![t]);
            },
            None => {
                let ghost w = chars@;
                let n = chars.len();
                let mut part: Vec<char> = Vec::new();
                let mut start: usize = 0;
                let mut idx: usize = 0;
                while idx < n
                    invariant
                        w == chars@,
                        simple_word(w) is None,
                        n == w.len(),
                        start <= idx <= n,
                        part@ == w.subrange(start as int, idx as int),
                        morphemes_from(w, 0, 0) == match morphemes_from(w, start as int, idx as int) {
                            Some(rest) => Some(data@ + rest),
                            None => None,
                        },
                    decreases n - idx,
                {
                    part.push(chars[idx]);
                    assert(part@ == w.subrange(start as int, idx + 1));
                    match morpheme_of(part.as_slice()) {
                        Some(t) => {
                            let waits = match t {
                                WordToken::Ein => true,
                                _ => false,
                            };
                            if waits && idx + 1 >= n {
                                return None;
                            }
                            if waits && chars[idx + 1] == 's' {
                                idx += 1;
                            } else {
                                proof {
                                    let rest = morphemes_from(w, idx + 1, idx + 1);
                                    if rest is Some {
                                        assert(data@ + (seq![t] + rest->0) == data@.push(t)
                                            + rest->0);
                                    }
                                }
                                data.push(t);
                                part.clear();
                                idx += 1;
                                start = idx;
                                assert(part@ == w.subrange(start as int, idx as int));
                            }
                        },
                        None => {
                            idx += 1;
                        },
                    }
                }
                if part.len() > 0 {
                    return None;
                }
                assert(data@ + Seq::<WordToken>::empty() == data@);
                if data.len() < 2 {
                    return None;
                }
            },
        }
        Some(Self { data })
    }

    /// The keyword or simple numeral that the whole of `input` spells.
    pub fn tokinize_single(input: &str) -> (r: Option<WordToken>)
        ensures
            r == simple_word(input@),
    {
        let chars = chars_of(input);
        simple_word_of(chars.as_slice())
    }

    /// The morpheme of a compound numeral that `input` spells.
    pub fn tokinize(input: &str) -> (r: Option<WordToken>)
        ensures
            r == morpheme(input@),
    {
        let chars = chars_of(input);
        morpheme_of(chars.as_slice())
    }

    pub fn len(&self) -> (n: usize)
        ensures
            n == self@.len(),
    {
        self.data.len()
    }

    /// The token at `index`.
    pub fn get(&self, index: usize) -> (t: WordToken)
        requires
            index < self@.len(),
        ensures
            t == self@[index as int],
    {
        self.data[index]
    }

    pub fn iter(&self) -> (it: std::slice::Iter<'_, WordToken>)
        ensures
            it.remaining() == self@.as_ref(),
    {
        let slice = self.data.as_slice();
        let it = slice.iter();
        proof {
            vstd::std_specs::slice::axiom_spec_slice_iter(slice);
        }
        it
    }

    /// A cursor that yields every token between its neighbours.
    pub fn iter_triple(&self) -> (it: TripleIter<'_, WordToken>)
        ensures
            it.inner@ == self@,
            it.len == self@.len(),
            it.count == 0,
    {
        TripleIter { inner: self.data.as_slice(), len: self.data.len(), count: 0usize }
    }
}

} // verus!
