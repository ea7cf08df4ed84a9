//! The token vocabulary shared by the scanner and the formatter.

use vstd::prelude::*;

verus! {

/// One classified unit of a scanned line.
#[derive(Debug)]
pub enum Token {
    /// A run of literal characters.
    Text(String),
    /// An emphasis toggle, written `_`.
    Underscore,
    /// A strong-emphasis toggle, written `*`.
    Asterisk,
    /// A heading marker: a run of `#`, holding the number of `#` after the first.
    Hash(usize),
}

/// The mathematical value of a [`Token`]: its text is a sequence of characters
/// and its heading level a natural number.
pub enum TokenView {
    Text(Seq<char>),
    Underscore,
    Asterisk,
    Hash(nat),
}

impl View for Token {
    type V = TokenView;

    open spec fn view(&self) -> TokenView {
        match self {
            Token::Text(t) => TokenView::Text(t@),
            Token::Underscore => TokenView::Underscore,
            Token::Asterisk => TokenView::Asterisk,
            Token::Hash(n) => TokenView::Hash(*n as nat),
        }
    }
}

impl PartialEq for Token {
    /// Two tokens are equal when they are of one kind and hold the same text
    /// or the same level.
    fn eq(&self, other: &Self) -> (r: bool) {
        match (self, other) {
            (Token::Text(a), Token::Text(b)) => *a == *b,
            (Token::Underscore, Token::Underscore) => true,
            (Token::Asterisk, Token::Asterisk) => true,
            (Token::Hash(a), Token::Hash(b)) => *a == *b,
            _ => false,
        }
    }
}

impl vstd::std_specs::cmp::PartialEqSpecImpl for Token {
    open spec fn obeys_eq_spec() -> bool {
        true
    }

    open spec fn eq_spec(&self, other: &Self) -> bool {
        self@ == other@
    }
}

impl DeepView for Token {
    type V = TokenView;

    open spec fn deep_view(&self) -> TokenView {
        self@
    }
}

} // verus!
