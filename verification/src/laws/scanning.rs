//! Laws of the scanner: how the tokens of a line follow from its parts, and
//! which sequences of tokens are the tokens of a line.

use vstd::prelude::*;
use crate::scanner::{
    first_span, is_marker, lemma_hash_run, lemma_hash_run_is, lemma_text_run, lemma_text_run_is,
    marker_free, scan,
};
use crate::token::TokenView;

verus! {

/// `k` characters `#` in a row.
pub open spec fn hashes(k: nat) -> Seq<char> {
    Seq::new(k, |i: int| '#')
}

/// The character `c` does not occur in `s`.
pub open spec fn free_of(s: Seq<char>, c: char) -> bool {
    forall|i: int| 0 <= i < s.len() ==> #[trigger] s[i] != c
}

/// How often the character `c` occurs in `s`.
pub open spec fn occurrences(s: Seq<char>, c: char) -> nat
    decreases s.len(),
{
    if s.len() == 0 {
        0
    } else {
        occurrences(s.drop_first(), c) + if s[0] == c {
            1nat
        } else {
            0nat
        }
    }
}

/// The text token of `text`, or no token where `text` is empty.
pub open spec fn text_tokens(text: Seq<char>) -> Seq<TokenView> {
    if text.len() == 0 {
        Seq::empty()
    } else {
        seq![TokenView::Text(text)]
    }
}

/// The characters that a token stands for.
pub open spec fn source(token: TokenView) -> Seq<char> {
    match token {
        TokenView::Text(t) => t,
        TokenView::Underscore => seq!['_'],
        TokenView::Asterisk => seq!['*'],
        TokenView::Hash(level) => hashes(level + 1),
    }
}

/// The characters that a sequence of tokens stands for: the sources of its
/// tokens, one after the other.
pub open spec fn sources(tokens: Seq<TokenView>) -> Seq<char>
    decreases tokens.len(),
{
    if tokens.len() == 0 {
        Seq::empty()
    } else {
        source(tokens[0]) + sources(tokens.drop_first())
    }
}

/// What holds of the tokens of every line: a text token holds at least one
/// character and no marker, no two text tokens are neighbours, and no two
/// heading markers are neighbours.
pub open spec fn canonical(tokens: Seq<TokenView>) -> bool {
    &&& forall|i: int|
        0 <= i < tokens.len() ==> (#[trigger] tokens[i] matches TokenView::Text(t) ==> t.len() > 0
            && marker_free(t))
    &&& forall|i: int|
        0 <= i < tokens.len() - 1 ==> !(#[trigger] tokens[i] is Text && tokens[i + 1] is Text)
    &&& forall|i: int|
        0 <= i < tokens.len() - 1 ==> !(#[trigger] tokens[i] is Hash && tokens[i + 1] is Hash)
}

/// Text that runs up to a marker, or to the end of the line, is scanned as
/// one token, and what follows it is scanned on its own.
pub proof fn lemma_scan_text_then(text: Seq<char>, rest: Seq<char>)
    requires
        marker_free(text),
        rest.len() > 0 ==> is_marker(rest[0]),
    ensures
        scan(text + rest) == text_tokens(text) + scan(rest),
{
    let s = text + rest;
    if text.len() > 0 {
        let k: int = text.len() as int;
        lemma_text_run_is(s, k);
        assert(s.take(k) =~= text);
        assert(s.skip(k) =~= rest);
    }
}

/// A `*` is scanned as one strong-emphasis toggle and a `_` as one emphasis
/// toggle, whatever follows.
pub proof fn lemma_scan_toggle_then(rest: Seq<char>)
    ensures
        scan(seq!['*'] + rest) == seq![TokenView::Asterisk] + scan(rest),
        scan(seq!['_'] + rest) == seq![TokenView::Underscore] + scan(rest),
{
    assert((seq!['*'] + rest).skip(1) =~= rest);
    assert((seq!['_'] + rest).skip(1) =~= rest);
}

/// A run of `k` characters `#` that ends before another character, or at the
/// end of the line, is scanned as one heading marker of level `k - 1`, and
/// what follows it is scanned on its own.
pub proof fn lemma_scan_hashes_then(k: nat, rest: Seq<char>)
    requires
        k >= 1,
        rest.len() > 0 ==> rest[0] != '#',
    ensures
        scan(hashes(k) + rest) == seq![TokenView::Hash((k - 1) as nat)] + scan(rest),
{
    let s = hashes(k) + rest;
    lemma_hash_run_is(s, k as int);
    assert(s.skip(k as int) =~= rest);
}

/// A line has no tokens exactly when it has no characters.
pub proof fn lemma_scan_empty(s: Seq<char>)
    ensures
        scan(s).len() == 0 <==> s.len() == 0,
{
}

/// A line without `#` has no heading marker among its tokens, a line
/// without `*` no strong-emphasis toggle, and a line without `_` no emphasis
/// toggle.
pub proof fn lemma_scan_without(s: Seq<char>)
    ensures
        free_of(s, '#') ==> forall|i: int|
            0 <= i < scan(s).len() ==> !(#[trigger] scan(s)[i] is Hash),
        free_of(s, '*') ==> forall|i: int|
            0 <= i < scan(s).len() ==> !(#[trigger] scan(s)[i] is Asterisk),
        free_of(s, '_') ==> forall|i: int|
            0 <= i < scan(s).len() ==> !(#[trigger] scan(s)[i] is Underscore),
    decreases s.len(),
{
    if s.len() > 0 {
        lemma_hash_run(s);
        lemma_text_run(s);
        let k: int = first_span(s) as int;
        let rest = s.skip(k);
        lemma_scan_without(rest);
    }
}

/// Characters other than `c` at the start of `s` do not add to how often
/// `c` occurs in `s`.
pub proof fn lemma_occurrences_skip(s: Seq<char>, c: char, k: int)
    requires
        0 <= k <= s.len(),
        forall|j: int| 0 <= j < k ==> s[j] != c,
    ensures
        occurrences(s, c) == occurrences(s.skip(k), c),
    decreases k,
{
    if k > 0 {
        let t = s.drop_first();
        lemma_occurrences_skip(t, c, k - 1);
        assert(t.skip(k - 1) =~= s.skip(k));
    } else {
        assert(s.skip(0) =~= s);
    }
}

/// Scanning loses nothing and reorders nothing: the sources of the tokens of
/// a line, one after the other, are the line.
pub proof fn lemma_scan_sources(s: Seq<char>)
    ensures
        sources(scan(s)) == s,
    decreases s.len(),
{
    if s.len() > 0 {
        lemma_hash_run(s);
        lemma_text_run(s);
        let k: int = first_span(s) as int;
        lemma_scan_sources(s.skip(k));
        assert(scan(s).drop_first() =~= scan(s.skip(k)));
    }
}

/// The tokens of a line are canonical.
pub proof fn lemma_scan_canonical(s: Seq<char>)
    ensures
        canonical(scan(s)),
    decreases s.len(),
{
    if s.len() > 0 {
        lemma_hash_run(s);
        lemma_text_run(s);
        let k: int = first_span(s) as int;
        lemma_scan_canonical(s.skip(k));
    }
}

/// A canonical sequence of tokens is what its own sources are scanned to. So
/// the tokens of a line are the one canonical sequence that spells the line.
pub proof fn lemma_scan_of_sources(tokens: Seq<TokenView>)
    requires
        canonical(tokens),
    ensures
        scan(sources(tokens)) == tokens,
    decreases tokens.len(),
{
    if tokens.len() > 0 {
        let rest = tokens.drop_first();
        let tail = sources(rest);
        lemma_scan_of_sources(rest);
        match tokens[0] {
            TokenView::Text(t) => {
                lemma_scan_text_then(t, tail);
            },
            TokenView::Underscore => {
                lemma_scan_toggle_then(tail);
            },
            TokenView::Asterisk => {
                lemma_scan_toggle_then(tail);
            },
            TokenView::Hash(level) => {
                lemma_scan_hashes_then(level + 1, tail);
            },
        }
    }
}

} // verus!
