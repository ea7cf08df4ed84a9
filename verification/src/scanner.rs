//! The scanner: from the characters of one line to its tokens.

use vstd::prelude::*;
use vstd::string::{StringExecFns, StringSliceAdditionalSpecFns};
use vstd::utf8::{
    encode_scalar, encode_utf8, encode_utf8_decode_utf8, encode_utf8_first_scalar,
    encode_utf8_valid_utf8, is_char_boundary,
};
use crate::laws::scanning::lemma_scan_canonical;
use crate::token::{Token, TokenView};

verus! {

/// The three characters that end a run of text.
pub open spec fn is_marker(c: char) -> bool {
    c == '_' || c == '*' || c == '#'
}

/// No character of `s` is a marker.
pub open spec fn marker_free(s: Seq<char>) -> bool {
    forall|i: int| 0 <= i < s.len() ==> !is_marker(#[trigger] s[i])
}

/// The number of `#` characters that `s` starts with.
pub open spec fn hash_run(s: Seq<char>) -> nat
    decreases s.len(),
{
    if s.len() > 0 && s[0] == '#' {
        1 + hash_run(s.drop_first())
    } else {
        0
    }
}

/// The number of characters at the start of `s` that come before its first marker.
pub open spec fn text_run(s: Seq<char>) -> nat
    decreases s.len(),
{
    if s.len() > 0 && !is_marker(s[0]) {
        1 + text_run(s.drop_first())
    } else {
        0
    }
}

/// The number of characters that the first token of a line stands for: one
/// for a toggle, the length of the run for a heading marker or for text.
pub open spec fn first_span(s: Seq<char>) -> nat
    recommends
        s.len() > 0,
{
    if s[0] == '#' {
        hash_run(s)
    } else if is_marker(s[0]) {
        1
    } else {
        text_run(s)
    }
}

/// The first token of a line. A `_` or a `*` is a toggle; a run of `#` is
/// one heading marker, whose level is the length of the run less one; a run
/// of other characters is one text token.
pub open spec fn first_token(s: Seq<char>) -> TokenView
    recommends
        s.len() > 0,
{
    if s[0] == '_' {
        TokenView::Underscore
    } else if s[0] == '*' {
        TokenView::Asterisk
    } else if s[0] == '#' {
        TokenView::Hash((hash_run(s) - 1) as nat)
    } else {
        TokenView::Text(s.take(text_run(s) as int))
    }
}

/// The tokens of a line, left to right: its first token, and then the tokens
/// of what follows the characters that the first token stands for. Runs are
/// taken as long as they go, so no two text tokens and no two heading markers
/// are neighbours.
pub open spec fn scan(s: Seq<char>) -> Seq<TokenView>
    decreases s.len(),
    via scan_decreases
{
    if s.len() == 0 {
        Seq::empty()
    } else {
        seq![first_token(s)] + scan(s.skip(first_span(s) as int))
    }
}

#[via_fn]
proof fn scan_decreases(s: Seq<char>) {
    lemma_hash_run(s);
    lemma_text_run(s);
}

/// The run of `#` at the start of `s` lies within `s`, holds only `#`, is not
/// empty where `s` starts with `#`, and ends before a character that is not
/// `#`.
pub proof fn lemma_hash_run(s: Seq<char>)
    ensures
        hash_run(s) <= s.len(),
        s.len() > 0 && s[0] == '#' ==> hash_run(s) >= 1,
        forall|j: int| 0 <= j < hash_run(s) ==> s[j] == '#',
        hash_run(s) < s.len() ==> s[hash_run(s) as int] != '#',
    decreases s.len(),
{
    if s.len() > 0 && s[0] == '#' {
        let t = s.drop_first();
        lemma_hash_run(t);
        assert forall|j: int| 0 <= j < hash_run(s) implies s[j] == '#' by {
            if j > 0 {
                assert(s[j] == t[j - 1]);
            }
        }
    }
}

/// The run of text at the start of `s` lies within `s`, holds no marker, is
/// not empty where `s` starts with a character that is no marker, and ends
/// before a marker.
pub proof fn lemma_text_run(s: Seq<char>)
    ensures
        text_run(s) <= s.len(),
        s.len() > 0 && !is_marker(s[0]) ==> text_run(s) >= 1,
        forall|j: int| 0 <= j < text_run(s) ==> !is_marker(s[j]),
        text_run(s) < s.len() ==> is_marker(s[text_run(s) as int]),
    decreases s.len(),
{
    if s.len() > 0 && !is_marker(s[0]) {
        let t = s.drop_first();
        lemma_text_run(t);
        assert forall|j: int| 0 <= j < text_run(s) implies !is_marker(s[j]) by {
            if j > 0 {
                assert(s[j] == t[j - 1]);
            }
        }
    }
}

/// The run of `#` at the start of `s` has length `k` where the first `k`
/// characters are `#` and the next one, if any, is not.
pub proof fn lemma_hash_run_is(s: Seq<char>, k: int)
    requires
        0 <= k <= s.len(),
        forall|j: int| 0 <= j < k ==> s[j] == '#',
        k < s.len() ==> s[k] != '#',
    ensures
        hash_run(s) == k,
    decreases k,
{
    if k > 0 {
        lemma_hash_run_is(s.drop_first(), k - 1);
    }
}

/// The run of text at the start of `s` has length `k` where the first `k`
/// characters are no markers and the next one, if any, is a marker.
pub proof fn lemma_text_run_is(s: Seq<char>, k: int)
    requires
        0 <= k <= s.len(),
        forall|j: int| 0 <= j < k ==> !is_marker(s[j]),
        k < s.len() ==> is_marker(s[k]),
    ensures
        text_run(s) == k,
    decreases k,
{
    if k > 0 {
        lemma_text_run_is(s.drop_first(), k - 1);
    }
}

/// A string has no more characters than its encoding has bytes.
proof fn lemma_chars_within_bytes(s: Seq<char>)
    ensures
        s.len() <= encode_utf8(s).len(),
    decreases s.len(),
{
    if s.len() > 0 {
        lemma_chars_within_bytes(s.drop_first());
    }
}

/// Moving a token from the front of what is still to come to the end of what
/// was emitted leaves the whole sequence as it was.
proof fn lemma_emit(
    before: Seq<TokenView>,
    after: Seq<TokenView>,
    token: TokenView,
    rest: Seq<TokenView>,
)
    requires
        after =~= before.push(token),
    ensures
        after + rest == before + (seq![token] + rest),
{
    assert(before.push(token) + rest =~= before + (seq![token] + rest));
}

/// Splits a string that is not empty into its first character and the rest.
/// A character takes one to four bytes and ends at the first character
/// boundary behind the start of the string.
fn split_first(s: &str) -> (r: (&str, &str))
    requires
        s@.len() > 0,
    ensures
        r.0@ == seq![s@[0]],
        r.1@ == s@.drop_first(),
{
    let ghost first = encode_scalar(s@[0] as u32);
    proof {
        // The bytes of the string are those of its first character and then
        // those of the rest, so the first character ends at the first
        // boundary behind the start.
        encode_utf8_first_scalar(s@);
        encode_utf8_valid_utf8(s@);
        encode_utf8_valid_utf8(s@.drop_first());
        reveal_with_fuel(is_char_boundary, 2);
    }
    let width: usize = if s.is_char_boundary(1) {
        1
    } else if s.is_char_boundary(2) {
        2
    } else if s.is_char_boundary(3) {
        3
    } else {
        4
    };
    assert(width == first.len());
    let r = s.split_at(width);
    proof {
        // Strings with the same bytes hold the same characters.
        assert(r.0.spec_bytes() =~= encode_utf8(seq![s@[0]])) by {
            assert(encode_utf8(seq![s@[0]]) =~= first + encode_utf8(seq![s@[0]].drop_first()));
        }
        assert(r.1.spec_bytes() =~= encode_utf8(s@.drop_first()));
        encode_utf8_decode_utf8(r.0@);
        encode_utf8_decode_utf8(seq![s@[0]]);
        encode_utf8_decode_utf8(r.1@);
        encode_utf8_decode_utf8(s@.drop_first());
    }
    r
}

/// Scans one line into its tokens.
///
/// The line is read once from left to right, with one character of
/// lookahead. Text is gathered until a marker or the end of the line flushes
/// it; a `#` that is followed by another `#` only raises the level of the
/// heading marker that the last `#` of the run then emits.
pub fn tokenize(line: &str) -> (tokens: Vec<Token>)
    ensures
        tokens.deep_view() == scan(line@),
        forall|i: int|
            0 <= i < tokens.len() ==> (#[trigger] tokens[i] matches Token::Text(t) ==> t@.len()
                > 0),
{
    let mut tokens: Vec<Token> = Vec::new();
    let mut text = String::new();
    let mut hash_count: usize = 0;
    // A line has no more characters than bytes, which bounds every run of `#`.
    let _byte_len: usize = line.as_bytes().len();
    proof {
        lemma_chars_within_bytes(line@);
    }
    let mut rest: &str = line;
    // `pos` is where `rest` begins; `start` is where the pending text or the
    // pending run of `#` begins.
    let ghost mut pos: int = 0;
    let ghost mut start: int = 0;
    assert(line@.skip(0) =~= line@);
    while !rest.is_empty()
        invariant
            line@.len() <= usize::MAX,
            0 <= start <= pos <= line@.len(),
            rest@ == line@.skip(pos),
            scan(line@) == tokens.deep_view() + scan(line@.skip(start)),
            hash_count == 0 ==> text@ == line@.subrange(start, pos) && marker_free(text@),
            hash_count > 0 ==> text@.len() == 0 && hash_count == pos - start && pos < line@.len()
                && forall|j: int| start <= j <= pos ==> line@[j] == '#',
        decreases line@.len() - pos,
    {
        let (head, tail) = split_first(rest);
        let c = head.get_char(0);
        let hash_follows = !tail.is_empty() && tail.get_char(0) == '#';
        assert(tail@ =~= line@.skip(pos + 1));
        if (c == '_' || c == '*' || c == '#') && !text.as_str().is_empty() {
            let ghost before = tokens.deep_view();
            let ghost from_start = line@.skip(start);
            let ghost pending = text@;
            tokens.push(Token::Text(text));
            text = String::new();
            proof {
                // The pending text is the whole run of text from `start` on.
                lemma_text_run_is(from_start, pos - start);
                assert(from_start.take(pos - start) =~= pending);
                assert(from_start.skip(pos - start) =~= line@.skip(pos));
                let token = TokenView::Text(pending);
                lemma_emit(before, tokens.deep_view(), token, scan(line@.skip(pos)));
                start = pos;
            }
        }
        let ghost before = tokens.deep_view();
        let ghost from_start = line@.skip(start);
        if c == '#' {
            if hash_follows {
                hash_count = hash_count + 1;
            } else {
                tokens.push(Token::Hash(hash_count));
                proof {
                    // The run of `#` from `start` on ends with this character.
                    lemma_hash_run_is(from_start, pos + 1 - start);
                    assert(from_start.skip(pos + 1 - start) =~= line@.skip(pos + 1));
                    let token = TokenView::Hash(hash_count as nat);
                    lemma_emit(before, tokens.deep_view(), token, scan(line@.skip(pos + 1)));
                    start = pos + 1;
                }
                hash_count = 0;
            }
        } else if c == '_' {
            tokens.push(Token::Underscore);
            proof {
                assert(from_start.skip(1) =~= line@.skip(pos + 1));
                let token = TokenView::Underscore;
                lemma_emit(before, tokens.deep_view(), token, scan(line@.skip(pos + 1)));
                start = pos + 1;
            }
        } else if c == '*' {
            tokens.push(Token::Asterisk);
            proof {
                assert(from_start.skip(1) =~= line@.skip(pos + 1));
                let token = TokenView::Asterisk;
                lemma_emit(before, tokens.deep_view(), token, scan(line@.skip(pos + 1)));
                start = pos + 1;
            }
        } else {
            text.append(head);
            assert(text@ =~= line@.subrange(start, pos + 1));
        }
        rest = tail;
        proof {
            pos = pos + 1;
        }
    }
    if !text.as_str().is_empty() {
        let ghost before = tokens.deep_view();
        let ghost from_start = line@.skip(start);
        let ghost pending = text@;
        tokens.push(Token::Text(text));
        proof {
            // The pending text is the run of text that ends the line.
            lemma_text_run_is(from_start, pos - start);
            assert(from_start.take(pos - start) =~= pending);
            let token = TokenView::Text(pending);
            lemma_emit(before, tokens.deep_view(), token, scan(from_start.skip(pos - start)));
        }
    }
    proof {
        lemma_scan_canonical(line@);
        assert forall|i: int| 0 <= i < tokens.len() implies (#[trigger] tokens[i] matches
            Token::Text(t) ==> t@.len() > 0) by {
            assert(tokens[i]@ == scan(line@)[i]);
        }
    }
    tokens
}

} // verus!
