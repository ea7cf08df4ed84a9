//! Conversion of whole lines: scanning and formatting put together.

use vstd::prelude::*;
use crate::formatter::{fragment, parse};
use crate::laws::scanning::lemma_scan_empty;
use crate::scanner::{scan, tokenize};
use crate::token::{Token, TokenView};

verus! {

/// Why a line could not be formatted: the token that it was rejected for and
/// the number of the line, the first line being line one.
#[derive(Debug)]
pub struct FormatError {
    pub token: Token,
    pub line: usize,
}

/// The mathematical value of a [`FormatError`].
pub struct FormatErrorView {
    pub token: TokenView,
    pub line: nat,
}

impl View for FormatError {
    type V = FormatErrorView;

    open spec fn view(&self) -> FormatErrorView {
        FormatErrorView { token: self.token@, line: self.line as nat }
    }
}

impl PartialEq for FormatError {
    /// Two errors are equal when they name equal tokens on the same line.
    fn eq(&self, other: &Self) -> (r: bool) {
        self.token == other.token && self.line == other.line
    }
}

impl vstd::std_specs::cmp::PartialEqSpecImpl for FormatError {
    open spec fn obeys_eq_spec() -> bool {
        true
    }

    open spec fn eq_spec(&self, other: &Self) -> bool {
        self@ == other@
    }
}

/// What one line, numbered `number`, becomes: nothing where it has no tokens,
/// else its fragment or the error it is rejected with.
pub open spec fn line_outcome(line: Seq<char>, number: nat) -> Option<
    Result<Seq<char>, FormatErrorView>,
> {
    let tokens = scan(line);
    if tokens.len() == 0 {
        None
    } else {
        Some(
            match fragment(tokens) {
                Ok(html) => Ok(html),
                Err(token) => Err(FormatErrorView { token, line: number }),
            },
        )
    }
}

/// What a sequence of lines becomes: the outcomes of its lines in order, the
/// lines without tokens left out. Lines are numbered from one.
pub open spec fn outcomes(lines: Seq<Seq<char>>) -> Seq<Result<Seq<char>, FormatErrorView>>
    decreases lines.len(),
{
    if lines.len() == 0 {
        Seq::empty()
    } else {
        let before = outcomes(lines.drop_last());
        match line_outcome(lines.last(), lines.len()) {
            None => before,
            Some(outcome) => before.push(outcome),
        }
    }
}

/// There is one outcome for each line that is not empty.
pub proof fn lemma_outcomes_count(lines: Seq<Seq<char>>)
    ensures
        outcomes(lines).len() == lines.filter(|line: Seq<char>| line.len() > 0).len(),
    decreases lines.len(),
{
    reveal(Seq::filter);
    if lines.len() > 0 {
        lemma_outcomes_count(lines.drop_last());
        lemma_scan_empty(lines.last());
    }
}

/// The mathematical value of one converted line.
pub open spec fn result_view(r: Result<String, FormatError>) -> Result<Seq<char>, FormatErrorView> {
    match r {
        Ok(html) => Ok(html@),
        Err(error) => Err(error@),
    }
}

/// The mathematical value of what [`convert_line`] returns.
pub open spec fn option_view(r: Option<Result<String, FormatError>>) -> Option<
    Result<Seq<char>, FormatErrorView>,
> {
    match r {
        None => None,
        Some(outcome) => Some(result_view(outcome)),
    }
}

/// Converts one line, numbered `number`, to its HTML fragment. A line without
/// tokens gives `None`; a line that cannot be formatted gives the error, which
/// names the offending token and the line.
pub fn convert_line(line: &str, number: usize) -> (r: Option<Result<String, FormatError>>)
    ensures
        option_view(r) == line_outcome(line@, number as nat),
        r is None <==> line@.len() == 0,
{
    let tokens = tokenize(line);
    if tokens.len() == 0 {
        None
    } else {
        match parse(tokens) {
            Ok(html) => Some(Ok(html)),
            Err(token) => Some(Err(FormatError { token, line: number })),
        }
    }
}

/// Converts lines to HTML fragments: one entry for each line that has tokens,
/// in the order of the lines. A line that cannot be formatted gives an error
/// in its place and does not stop the lines after it.
pub fn convert(lines: &[String]) -> (out: Vec<Result<String, FormatError>>)
    ensures
        out@.map_values(|r: Result<String, FormatError>| result_view(r)) == outcomes(
            lines@.map_values(|l: String| l@),
        ),
{
    let mut out: Vec<Result<String, FormatError>> = Vec::new();
    let ghost views = lines@.map_values(|l: String| l@);
    let mut i: usize = 0;
    while i < lines.len()
        invariant
            0 <= i <= lines.len(),
            views == lines@.map_values(|l: String| l@),
            out@.map_values(|r: Result<String, FormatError>| result_view(r)) == outcomes(
                views.take(i as int),
            ),
        decreases lines.len() - i,
    {
        assert(views.take(i + 1).drop_last() =~= views.take(i as int));
        match convert_line(lines[i].as_str(), i + 1) {
            None => {},
            Some(outcome) => {
                out.push(outcome);
            },
        }
        i = i + 1;
    }
    assert(views.take(i as int) =~= views);
    out
}

} // verus!
