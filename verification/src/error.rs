//! Failures of the calculator and the diagnostics they carry.

use vstd::prelude::*;
use vstd::string::StringExecFns;
use crate::stream::input::{source_char, source_text, InputStream};
use crate::text::{push_char, push_repeated, repeated};
use crate::token::InputToken;
use crate::types::StartEnd;

verus! {

/// What a diagnostic says: a range of the input and a message.
pub struct Diagnostic {
    pub range: StartEnd,
    pub msg: Seq<char>,
}

/// One diagnostic: a range of the input and a message about it.
#[derive(Debug, Clone, PartialEq, Eq)]
pub struct ErrorStruct {
    range: StartEnd,
    msg: String,
}

impl View for ErrorStruct {
    type V = Diagnostic;

    closed spec fn view(&self) -> Diagnostic {
        Diagnostic { range: self.range, msg: self.msg@ }
    }
}

impl ErrorStruct {
    pub fn new(range: StartEnd, msg: String) -> (r: Self)
        ensures
            r@ == (Diagnostic { range, msg: msg@ }),
    {
        Self { range, msg }
    }

    pub fn range(&self) -> (r: StartEnd)
        ensures
            r == self@.range,
    {
        self.range
    }

    pub fn msg(&self) -> (r: &String)
        ensures
            r@ == self@.msg,
    {
        &self.msg
    }
}

/// The diagnostics held by a vector, in order.
pub open spec fn diagnostics(errors: Seq<ErrorStruct>) -> Seq<Diagnostic> {
    errors.map_values(|e: ErrorStruct| e@)
}

/// What an [`Error`] says.
pub enum ErrorView {
    Dummy,
    ReadInput(Seq<char>),
    TokenStream(Seq<InputToken>, Seq<Diagnostic>),
    ParseTree(Seq<char>),
    ParseNode(Seq<char>),
}

/// A failure of one pass.
#[derive(Debug, Clone, PartialEq, Eq)]
pub enum Error {
    Dummy,
    /// The input could not be read; holds the reader's message.
    ReadInput(String),
    /// Lexing or validation failed; holds the classified input and one
    /// diagnostic for every problem found.
    TokenStream(InputStream, Vec<ErrorStruct>),
    /// A slice of tokens has no tree; holds the reason.
    ParseTree(String),
    /// A tree has no value; holds the reason.
    ParseNode(String),
}

impl View for Error {
    type V = ErrorView;

    open spec fn view(&self) -> ErrorView {
        match self {
            Error::Dummy => ErrorView::Dummy,
            Error::ReadInput(msg) => ErrorView::ReadInput(msg@),
            Error::TokenStream(input, errors) => ErrorView::TokenStream(
                input@,
                diagnostics(errors@),
            ),
            Error::ParseTree(msg) => ErrorView::ParseTree(msg@),
            Error::ParseNode(msg) => ErrorView::ParseNode(msg@),
        }
    }
}

/// One diagnostic as text: the input behind a row of marks, and below it
/// carets under the range, followed by the message.
pub open spec fn rendered_diagnostic(text: Seq<char>, d: Diagnostic) -> Seq<char> {
    repeated('\u{204E}', 8) + " "@ + text + "\n\r"@ + repeated(' ', 9) + repeated(
        ' ',
        d.range.start as int,
    ) + repeated('^', d.range.end - d.range.start) + "  "@ + d.msg + "\n\n\r"@
}

/// The first `n` diagnostics as text, one after the other.
pub open spec fn rendered_diagnostics(text: Seq<char>, ds: Seq<Diagnostic>, n: int) -> Seq<char>
    decreases n,
{
    if n <= 0 {
        Seq::empty()
    } else {
        rendered_diagnostics(text, ds, n - 1) + rendered_diagnostic(text, ds[n - 1])
    }
}

impl ErrorView {
    /// The error as text for a reader.
    pub open spec fn rendered(self) -> Seq<char> {
        match self {
            ErrorView::Dummy => "Dummy Error"@,
            ErrorView::ReadInput(msg) => "Fehler beim lesen der Eingabe: "@ + msg,
            ErrorView::TokenStream(input, ds) => "Fehler:"@ + "\n\r"@ + rendered_diagnostics(
                source_text(input),
                ds,
                ds.len() as int,
            ),
            ErrorView::ParseTree(msg) => "ParseTree Error: "@ + msg,
            ErrorView::ParseNode(msg) => "ParseNode Error: "@ + msg,
        }
    }
}

/// The text that a classified input was read from.
fn text_of(input: &InputStream) -> (r: String)
    ensures
        r@ == source_text(input@),
{
    let mut text = String::new();
    let n = input.len();
    let mut i: usize = 0;
    while i < n
        invariant
            n == input@.len(),
            i <= n,
            text@ == source_text(input@.take(i as int)),
        decreases n - i,
    {
        let c = match input.get(i) {
            InputToken::Space => ' ',
            InputToken::Letter(c) => c,
            InputToken::Digit(c) => c,
            InputToken::Symbol(c) => c,
            InputToken::Whatever(c) => c,
        };
        push_char(&mut text, c);
        assert(source_text(input@.take(i + 1)) =~= source_text(input@.take(i as int)).push(
            source_char(input@[i as int]),
        ));
        i += 1;
    }
    assert(input@.take(n as int) == input@);
    text
}

/// Appends one diagnostic as text.
fn push_diagnostic(out: &mut String, text: &String, err: &ErrorStruct)
    ensures
        final(out)@ == old(out)@ + rendered_diagnostic(text@, err@),
{
    push_repeated(out, '\u{204E}', 8);
    out.append(" ");
    out.append(text.as_str());
    out.append("\n\r");
    push_repeated(out, ' ', 9);
    push_repeated(out, ' ', err.range.start);
    let width: usize = if err.range.end > err.range.start {
        err.range.end - err.range.start
    } else {
        0
    };
    assert(repeated('^', width as int) == repeated('^', err.range.end - err.range.start));
    push_repeated(out, '^', width);
    out.append("  ");
    out.append(err.msg.as_str());
    out.append("\n\n\r");
    assert(out@ =~= old(out)@ + rendered_diagnostic(text@, err@));
}

impl Error {
    /// Renders the error as text for a reader. A failure of lexing or
    /// validation shows the input once for every diagnostic, with carets
    /// under the range that the diagnostic is about.
    pub fn to_string(&self) -> (r: String)
        ensures
            r@ == self@.rendered(),
    {
        let mut out = String::new();
        match self {
            Error::Dummy => {
                out.append("Dummy Error");
            },
            Error::ReadInput(msg) => {
                out.append("Fehler beim lesen der Eingabe: ");
                out.append(msg.as_str());
            },
            Error::TokenStream(input, errors) => {
                let text = text_of(input);
                out.append("Fehler:");
                out.append("\n\r");
                let ghost head = out@;
                let n = errors.len();
                let mut i: usize = 0;
                assert(out@ == head + rendered_diagnostics(
                    text@,
                    diagnostics(errors@),
                    0,
                ));
                while i < n
                    invariant
                        n == errors@.len(),
                        i <= n,
                        out@ == head + rendered_diagnostics(
                            text@,
                            diagnostics(errors@),
                            i as int,
                        ),
                    decreases n - i,
                {
                    push_diagnostic(&mut out, &text, &errors[i]);
                    assert(diagnostics(errors@)[i as int] == errors@[i as int]@);
                    assert(out@ =~= head + rendered_diagnostics(
                        text@,
                        diagnostics(errors@),
                        i + 1,
                    ));
                    i += 1;
                }
            },
            Error::ParseTree(msg) => {
                out.append("ParseTree Error: ");
                out.append(msg.as_str());
            },
            Error::ParseNode(msg) => {
                out.append("ParseNode Error: ");
                out.append(msg.as_str());
            },
        }
        out
    }
}

} // verus!
