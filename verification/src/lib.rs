//! Line-by-line conversion of a small markdown dialect to HTML fragments.
//!
//! A line is scanned into [`Token`]s by [`tokenize`], and the tokens of a line
//! are formatted as one HTML fragment by [`parse`]. [`convert_line`] and
//! [`convert`] put the two together. No state is carried from one line to the
//! next.
//!
//! Every function has a contract over the character sequence of its input
//! and is proved to meet it. The module [`laws`] proves what follows from
//! those contracts for every line.

pub mod convert;
pub mod formatter;
pub mod laws;
pub mod scanner;
pub mod token;

pub use convert::{convert, convert_line, FormatError};
pub use formatter::parse;
pub use scanner::tokenize;
pub use token::Token;
