//! The line formatter: from the tokens of one line to its HTML fragment.

use vstd::prelude::*;
use vstd::string::StringExecFns;
use crate::token::{Token, TokenView};

verus! {

/// The opening and closing tag that the first token of a line selects: a
/// paragraph for text, a heading of depth one to three for a heading marker
/// of level zero to two, nothing for a toggle. A deeper heading selects no
/// tags at all.
pub open spec fn wrapper_tags(first: TokenView) -> Option<(Seq<char>, Seq<char>)> {
    match first {
        TokenView::Text(_) => Some(("<p>"@, "</p>"@)),
        TokenView::Hash(level) => if level == 0 {
            Some(("<h1>"@, "</h1>"@))
        } else if level == 1 {
            Some(("<h2>"@, "</h2>"@))
        } else if level == 2 {
            Some(("<h3>"@, "</h3>"@))
        } else {
            None
        },
        TokenView::Asterisk => Some((Seq::empty(), Seq::empty())),
        TokenView::Underscore => Some((Seq::empty(), Seq::empty())),
    }
}

/// How many of the first `i` tokens equal `mark`.
pub open spec fn toggles_before(tokens: Seq<TokenView>, mark: TokenView, i: int) -> nat
    decreases i,
{
    if i <= 0 {
        0
    } else {
        toggles_before(tokens, mark, i - 1) + if tokens[i - 1] == mark {
            1nat
        } else {
            0nat
        }
    }
}

/// Whether a toggle at index `i` opens its tag: it does when an even number
/// of toggles of its kind came before it, and closes the tag otherwise.
pub open spec fn opens(tokens: Seq<TokenView>, i: int) -> bool {
    toggles_before(tokens, tokens[i], i) % 2 == 0
}

/// What the token at index `i` contributes to the fragment. Text stands for
/// itself, a toggle for its opening or its closing tag, and a heading marker
/// for nothing.
pub open spec fn piece(tokens: Seq<TokenView>, i: int) -> Seq<char> {
    match tokens[i] {
        TokenView::Text(t) => t,
        TokenView::Asterisk => if opens(tokens, i) {
            "<b>"@
        } else {
            "</b>"@
        },
        TokenView::Underscore => if opens(tokens, i) {
            "<em>"@
        } else {
            "</em>"@
        },
        TokenView::Hash(_) => Seq::empty(),
    }
}

/// The pieces of the first `n` tokens, one after the other.
pub open spec fn pieces(tokens: Seq<TokenView>, n: int) -> Seq<char>
    decreases n,
{
    if n <= 0 {
        Seq::empty()
    } else {
        pieces(tokens, n - 1) + piece(tokens, n - 1)
    }
}

/// The pieces of all the tokens, one after the other: the fragment without
/// the tags around it.
pub open spec fn body(tokens: Seq<TokenView>) -> Seq<char> {
    pieces(tokens, tokens.len() as int)
}

/// The index of the first heading marker at or after `from`, if there is one.
pub open spec fn first_heading_from(tokens: Seq<TokenView>, from: int) -> Option<int>
    decreases tokens.len() - from,
{
    if from >= tokens.len() {
        None
    } else if tokens[from] is Hash {
        Some(from)
    } else {
        first_heading_from(tokens, from + 1)
    }
}

/// The index of the token that makes a line unformattable: the first token
/// where it selects no tags, else the first heading marker behind the first
/// token.
pub open spec fn offending_index(tokens: Seq<TokenView>) -> Option<int>
    recommends
        tokens.len() > 0,
{
    if wrapper_tags(tokens[0]) is None {
        Some(0)
    } else {
        first_heading_from(tokens, 1)
    }
}

/// The fragment of a line with the given tokens, or the token that it is
/// rejected for.
pub open spec fn fragment(tokens: Seq<TokenView>) -> Result<Seq<char>, TokenView>
    recommends
        tokens.len() > 0,
{
    match offending_index(tokens) {
        Some(i) => Err(tokens[i]),
        None => {
            let tags = wrapper_tags(tokens[0])->0;
            Ok(tags.0 + body(tokens) + tags.1)
        },
    }
}

/// The mathematical value of what [`parse`] returns.
pub open spec fn outcome_view(r: Result<String, Token>) -> Result<Seq<char>, TokenView> {
    match r {
        Ok(html) => Ok(html@),
        Err(token) => Err(token@),
    }
}

/// Where no token from `from` up to `i` is a heading marker and the one at
/// `i` is, `i` is the first heading marker from `from` on.
pub proof fn lemma_first_heading_found(tokens: Seq<TokenView>, from: int, i: int)
    requires
        0 <= from <= i < tokens.len(),
        forall|j: int| from <= j < i ==> !(tokens[j] is Hash),
        tokens[i] is Hash,
    ensures
        first_heading_from(tokens, from) == Some(i),
    decreases i - from,
{
    if from < i {
        lemma_first_heading_found(tokens, from + 1, i);
    }
}

/// There is no first heading marker from `from` on exactly when no token from
/// there on is one; and the first one, where there is one, is one.
pub proof fn lemma_first_heading_none(tokens: Seq<TokenView>, from: int)
    requires
        0 <= from,
    ensures
        first_heading_from(tokens, from) is None <==> forall|j: int|
            from <= j < tokens.len() ==> !(tokens[j] is Hash),
        first_heading_from(tokens, from) matches Some(i) ==> from <= i < tokens.len()
            && tokens[i] is Hash && forall|j: int| from <= j < i ==> !(tokens[j] is Hash),
    decreases tokens.len() - from,
{
    if from < tokens.len() && !(tokens[from] is Hash) {
        lemma_first_heading_none(tokens, from + 1);
    }
}

/// A line is formatted exactly when its first token selects tags and no
/// heading marker stands behind the first token.
pub proof fn lemma_fragment_ok(tokens: Seq<TokenView>)
    ensures
        fragment(tokens) is Ok <==> wrapper_tags(tokens[0]) is Some && forall|j: int|
            1 <= j < tokens.len() ==> !(tokens[j] is Hash),
        fragment(tokens) matches Err(token) ==> token is Hash,
{
    lemma_first_heading_none(tokens, 1);
}

/// Formats the tokens of one line as an HTML fragment.
///
/// The first token selects the tags around the fragment; the tokens then
/// contribute their pieces in order. The line is rejected, with the offending
/// token, where the first token is a heading marker deeper than the third
/// level or a heading marker stands behind the first token.
pub fn parse(tokens: Vec<Token>) -> (r: Result<String, Token>)
    requires
        tokens.len() > 0,
    ensures
        outcome_view(r) == fragment(tokens.deep_view()),
        r is Ok <==> wrapper_tags(tokens[0]@) is Some && forall|j: int|
            1 <= j < tokens.len() ==> !(#[trigger] tokens[j] is Hash),
{
    let ghost view = tokens.deep_view();
    proof {
        reveal_strlit("");
    }
    let tags: (&str, &str) = match &tokens[0] {
        Token::Text(_) => ("<p>", "</p>"),
        Token::Hash(0) => ("<h1>", "</h1>"),
        Token::Hash(1) => ("<h2>", "</h2>"),
        Token::Hash(2) => ("<h3>", "</h3>"),
        Token::Hash(level) => {
            return Err(Token::Hash(*level));
        },
        Token::Asterisk => ("", ""),
        Token::Underscore => ("", ""),
    };
    let mut output = String::from_str(tags.0);
    let mut strong = false;
    let mut emphasis = false;
    let mut i: usize = 0;
    while i < tokens.len()
        invariant
            view == tokens.deep_view(),
            wrapper_tags(view[0]) == Some((tags.0@, tags.1@)),
            0 <= i <= tokens.len(),
            output@ == tags.0@ + pieces(view, i as int),
            strong == (toggles_before(view, TokenView::Asterisk, i as int) % 2 == 1),
            emphasis == (toggles_before(view, TokenView::Underscore, i as int) % 2 == 1),
            forall|j: int| 1 <= j < i ==> !(view[j] is Hash),
        decreases tokens.len() - i,
    {
        match &tokens[i] {
            Token::Text(t) => {
                output.append(t.as_str());
            },
            Token::Asterisk => {
                strong = !strong;
                if strong {
                    output.append("<b>");
                } else {
                    output.append("</b>");
                }
            },
            Token::Underscore => {
                emphasis = !emphasis;
                if emphasis {
                    output.append("<em>");
                } else {
                    output.append("</em>");
                }
            },
            Token::Hash(level) => {
                if i != 0 {
                    proof {
                        lemma_first_heading_found(view, 1, i as int);
                    }
                    return Err(Token::Hash(*level));
                }
            },
        }
        i = i + 1;
    }
    proof {
        lemma_first_heading_none(view, 1);
        assert forall|j: int| 1 <= j < tokens.len() implies !(#[trigger] tokens[j] is Hash) by {
            assert(view[j] == tokens[j]@);
        }
    }
    output.append(tags.1);
    Ok(output)
}

} // verus!
