//! Classification of the input text, one token per character.

use vstd::prelude::*;
use vstd::std_specs::iter::IteratorSpec;
use crate::token::InputToken;

verus! {

/// The lower-case letters of the German alphabet.
pub open spec fn is_letter(c: char) -> bool {
    ('a' <= c && c <= 'z') || c == 'ö' || c == 'ä' || c == 'ü' || c == 'ß'
}

pub open spec fn is_digit(c: char) -> bool {
    '0' <= c && c <= '9'
}

/// The four operator signs and the two brackets.
pub open spec fn is_symbol(c: char) -> bool {
    c == '+' || c == '-' || c == '*' || c == '/' || c == '(' || c == ')'
}

/// The class of one character. Only the blank itself counts as space.
pub open spec fn classify(c: char) -> InputToken {
    if c == ' ' {
        InputToken::Space
    } else if is_letter(c) {
        InputToken::Letter(c)
    } else if is_digit(c) {
        InputToken::Digit(c)
    } else if is_symbol(c) {
        InputToken::Symbol(c)
    } else {
        InputToken::Whatever(c)
    }
}

/// The classes of the characters of a text, one token for each character.
pub open spec fn classified(text: Seq<char>) -> Seq<InputToken> {
    text.map_values(|c: char| classify(c))
}

/// The character a token was classified from.
pub open spec fn source_char(t: InputToken) -> char {
    match t {
        InputToken::Space => ' ',
        InputToken::Letter(c) => c,
        InputToken::Digit(c) => c,
        InputToken::Symbol(c) => c,
        InputToken::Whatever(c) => c,
    }
}

/// The text that a sequence of tokens was classified from.
pub open spec fn source_text(tokens: Seq<InputToken>) -> Seq<char> {
    tokens.map_values(|t: InputToken| source_char(t))
}

/// Classifying a text and reading the tokens back gives the text.
pub proof fn lemma_classified_keeps_text(text: Seq<char>)
    ensures
        source_text(classified(text)) == text,
{
    assert(source_text(classified(text)) =~= text);
}

fn classify_char(c: char) -> (t: InputToken)
    ensures
        t == classify(c),
{
    if c == ' ' {
        InputToken::Space
    } else if ('a' <= c && c <= 'z') || c == 'ö' || c == 'ä' || c == 'ü' || c == 'ß' {
        InputToken::Letter(c)
    } else if '0' <= c && c <= '9' {
        InputToken::Digit(c)
    } else if c == '+' || c == '-' || c == '*' || c == '/' || c == '(' || c == ')' {
        InputToken::Symbol(c)
    } else {
        InputToken::Whatever(c)
    }
}

/// The classified characters of one input text. The index of a token is the
/// offset of its character, which every later range refers to.
#[derive(Debug, PartialEq, Eq)]
pub struct InputStream {
    data: Vec<InputToken>,
}

impl View for InputStream {
    type V = Seq<InputToken>;

    closed spec fn view(&self) -> Seq<InputToken> {
        self.data@
    }
}

impl Clone for InputStream {
    fn clone(&self) -> (r: Self)
        ensures
            r@ == self@,
    {
        let mut data: Vec<InputToken> = Vec::new();
        let n = self.data.len();
        let mut i: usize = 0;
        while i < n
            invariant
                n == self.data@.len(),
                i <= n,
                data@ == self.data@.take(i as int),
            decreases n - i,
        {
            data.push(self.data[i]);
            i += 1;
        }
        Self { data }
    }
}

impl InputStream {
    pub fn new() -> (r: Self)
        ensures
            r@ == Seq::<InputToken>::empty(),
    {
        Self { data: Vec::<InputToken>::new() }
    }

    /// Classifies every character of `input`.
    pub fn from(input: &str) -> (r: Self)
        ensures
            r@ == classified(input@),
            source_text(r@) == input@,
    {
        let mut data: Vec<InputToken> = Vec::new();
        for c in it: input.chars()
            invariant
                it.seq() == input@,
                data@ == classified(input@.take(it.index())),
        {
            data.push(classify_char(c));
            assert(classified(input@.take(it.index() + 1)) =~= classified(
                input@.take(it.index()),
            ).push(classify(c)));
        }
        proof {
            assert(input@.take(input@.len() as int) == input@);
            assert(source_text(data@) =~= input@);
        }
        Self { data }
    }

    pub fn len(&self) -> (n: usize)
        ensures
            n == self@.len(),
    {
        self.data.len()
    }

    /// The token at offset `idx`.
    pub fn get(&self, idx: usize) -> (t: InputToken)
        requires
            idx < self@.len(),
        ensures
            t == self@[idx as int],
    {
        self.data[idx]
    }

    pub fn iter(&self) -> (it: std::slice::Iter<'_, InputToken>)
        ensures
            it.remaining() == self@.as_ref(),
    {
        let slice = self.data.as_slice();
        let it = slice.iter();
        proof {
            vstd::std_specs::slice::axiom_spec_slice_iter(slice);
        }
        it
    }
}

} // verus!
