//! Laws of the formatter: the body of a fragment as a walk over the tokens
//! that flips a switch at each toggle.

use vstd::prelude::*;
use crate::formatter::{body, opens, pieces, toggles_before};
use crate::laws::scanning::text_tokens;
use crate::token::TokenView;

verus! {

/// What a walk over `tokens` from left to right writes, where it flips one of
/// two switches at each toggle and writes the opening tag when the switch
/// comes on and the closing tag when it goes off. `strong` and `emphasis` are
/// the states of the two switches before the walk.
pub open spec fn walk(tokens: Seq<TokenView>, strong: bool, emphasis: bool) -> Seq<char>
    decreases tokens.len(),
{
    if tokens.len() == 0 {
        Seq::empty()
    } else {
        let rest = tokens.drop_first();
        match tokens[0] {
            TokenView::Text(t) => t + walk(rest, strong, emphasis),
            TokenView::Asterisk => (if strong {
                "</b>"@
            } else {
                "<b>"@
            }) + walk(rest, !strong, emphasis),
            TokenView::Underscore => (if emphasis {
                "</em>"@
            } else {
                "<em>"@
            }) + walk(rest, strong, !emphasis),
            TokenView::Hash(_) => walk(rest, strong, emphasis),
        }
    }
}

/// The pieces of all the tokens are the pieces of the first `i` tokens and
/// then what a walk over the other tokens writes, where the walk starts with
/// each switch on exactly when an odd number of its toggles came before.
proof fn lemma_walk_from(tokens: Seq<TokenView>, i: int)
    requires
        0 <= i <= tokens.len(),
    ensures
        body(tokens) == pieces(tokens, i) + walk(
            tokens.skip(i),
            toggles_before(tokens, TokenView::Asterisk, i) % 2 == 1,
            toggles_before(tokens, TokenView::Underscore, i) % 2 == 1,
        ),
    decreases tokens.len() - i,
{
    if i < tokens.len() {
        lemma_walk_from(tokens, i + 1);
        assert(tokens.skip(i).drop_first() =~= tokens.skip(i + 1));
    }
}

/// The body of a fragment is what a walk over all the tokens writes that
/// starts with both switches off.
pub proof fn lemma_body_is_walk(tokens: Seq<TokenView>)
    ensures
        body(tokens) == walk(tokens, false, false),
{
    lemma_walk_from(tokens, 0);
    assert(tokens.skip(0) =~= tokens);
}

/// How many of the first `n` tokens are the toggle `mark` and open its tag.
pub open spec fn opened_before(tokens: Seq<TokenView>, mark: TokenView, n: int) -> nat
    decreases n,
{
    if n <= 0 {
        0
    } else {
        opened_before(tokens, mark, n - 1) + if tokens[n - 1] == mark && opens(tokens, n - 1) {
            1nat
        } else {
            0nat
        }
    }
}

/// How many of the first `n` tokens are the toggle `mark` and close its tag.
pub open spec fn closed_before(tokens: Seq<TokenView>, mark: TokenView, n: int) -> nat
    decreases n,
{
    if n <= 0 {
        0
    } else {
        closed_before(tokens, mark, n - 1) + if tokens[n - 1] == mark && !opens(tokens, n - 1) {
            1nat
        } else {
            0nat
        }
    }
}

/// Of the toggles of one kind, every second one closes what the one before
/// it opened. So as many tags are closed as were opened where the kind occurs
/// an even number of times, and exactly one tag is left open where it occurs
/// an odd number of times.
pub proof fn lemma_toggle_balance(tokens: Seq<TokenView>, mark: TokenView, n: int)
    ensures
        opened_before(tokens, mark, n) + closed_before(tokens, mark, n) == toggles_before(
            tokens,
            mark,
            n,
        ),
        opened_before(tokens, mark, n) == closed_before(tokens, mark, n) + toggles_before(
            tokens,
            mark,
            n,
        ) % 2,
    decreases n,
{
    if n > 0 {
        lemma_toggle_balance(tokens, mark, n - 1);
    }
}

/// A walk writes a text and then goes on as if the text had not been there.
pub proof fn lemma_walk_text(text: Seq<char>, rest: Seq<TokenView>, strong: bool, emphasis: bool)
    ensures
        walk(text_tokens(text) + rest, strong, emphasis) == text + walk(rest, strong, emphasis),
{
    if text.len() > 0 {
        assert((text_tokens(text) + rest).drop_first() =~= rest);
    }
}

/// A walk writes a tag at a toggle, by the state of its switch, and goes on
/// with that switch flipped.
pub proof fn lemma_walk_toggle(rest: Seq<TokenView>, strong: bool, emphasis: bool)
    ensures
        walk(seq![TokenView::Asterisk] + rest, strong, emphasis) == (if strong {
            "</b>"@
        } else {
            "<b>"@
        }) + walk(rest, !strong, emphasis),
        walk(seq![TokenView::Underscore] + rest, strong, emphasis) == (if emphasis {
            "</em>"@
        } else {
            "<em>"@
        }) + walk(rest, strong, !emphasis),
{
    assert((seq![TokenView::Asterisk] + rest).drop_first() =~= rest);
    assert((seq![TokenView::Underscore] + rest).drop_first() =~= rest);
}

/// A walk writes nothing at a heading marker.
pub proof fn lemma_walk_heading(level: nat, rest: Seq<TokenView>, strong: bool, emphasis: bool)
    ensures
        walk(seq![TokenView::Hash(level)] + rest, strong, emphasis) == walk(rest, strong, emphasis),
{
    assert((seq![TokenView::Hash(level)] + rest).drop_first() =~= rest);
}

} // verus!
