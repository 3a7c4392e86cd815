//! A calculator for arithmetic written in digits, symbols and German words.
//!
//! Text is classified character by character, assembled into a stream of
//! expression tokens, validated, and built into an expression tree by
//! precedence. Every step is stated as a mathematical function of its input
//! and proved to compute it.
//!
//! The library computes with integers only. A tree has an exact integer
//! value where its quotients are integers; a caller that wants fractions
//! walks the tree with arithmetic of its own.
//!
//! Beside the functions stand the laws that hold of them: every well-formed
//! stream has a tree, a stream that passes validation has balanced brackets,
//! a compound numeral has the value that the places of its morphemes give,
//! and a printed tree of sums and differences is read back as the same tree.

use vstd::prelude::*;

pub mod error;
pub mod iter;
pub mod parse;
pub mod roundtrip;
pub mod stream;
pub mod text;
pub mod token;
pub mod types;

use crate::error::{Error, ErrorView};
use crate::parse::tree::{build_tree, ParseTree};
use crate::stream::input::{classified, InputStream};
use crate::stream::parse::{assemble, valid, violations, ParseStream};

verus! {

/// The tree of an expression given as text.
///
/// The text is classified and assembled into tokens. Where that gives
/// diagnostics, they are the failure. Else the tokens are validated, and
/// where that gives diagnostics, those are the failure. Else the tree is
/// built from the tokens.
pub open spec fn expression_tree(text: Seq<char>) -> Result<ParseTree, ErrorView> {
    let input = classified(text);
    let assembly = assemble(input);
    if assembly.errors.len() > 0 {
        Err(ErrorView::TokenStream(input, assembly.errors))
    } else if !valid(assembly.tokens) {
        Err(
            ErrorView::TokenStream(
                input,
                violations(assembly.tokens, assembly.tokens.len() as int),
            ),
        )
    } else {
        build_tree(assembly.tokens)
    }
}

/// Reads an expression and returns its tree together with the tree in
/// brackets, or the failure of the first pass that failed.
pub fn calculate(input: &str) -> (r: Result<(ParseTree, String), Error>)
    ensures
        match r {
            Ok(pair) => expression_tree(input@) == Ok::<ParseTree, ErrorView>(pair.0) && pair.1@
                == pair.0.printed(),
            Err(e) => expression_tree(input@) == Err::<ParseTree, ErrorView>(e@),
        },
{
    let input_stream = InputStream::from(input);
    let parse_stream = match ParseStream::from(&input_stream) {
        Ok(stream) => stream,
        Err(e) => return Err(e),
    };
    match parse_stream.validate() {
        Ok(_) => {},
        Err(e) => return Err(e),
    }
    match ParseTree::from(parse_stream.as_slice()) {
        Ok(tree) => {
            let text = tree.print();
            Ok((tree, text))
        },
        Err(e) => Err(e),
    }
}

} // verus!
