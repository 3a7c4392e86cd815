//! The streams of the lexer: classified characters, numeral morphemes and
//! expression tokens.

pub mod input;
pub mod word;
pub mod parse;
pub mod numeral;
pub mod place_value;

pub use input::InputStream;
pub use word::WordTokenStream;
pub use parse::ParseStream;
pub use numeral::{parse_number, parse_word};
