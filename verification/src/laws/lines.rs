//! Laws of whole lines: what the scanner and the formatter do together on
//! every line of a given shape.

use vstd::prelude::*;
use crate::formatter::{body, fragment, lemma_fragment_ok, toggles_before};
use crate::laws::formatting::{
    closed_before, lemma_body_is_walk, lemma_toggle_balance, lemma_walk_heading, lemma_walk_text,
    lemma_walk_toggle, opened_before,
};
use crate::laws::scanning::{
    free_of, hashes, lemma_occurrences_skip, lemma_scan_hashes_then, lemma_scan_text_then,
    lemma_scan_toggle_then, lemma_scan_without, occurrences, text_tokens,
};
use crate::scanner::{
    first_span, first_token, lemma_hash_run, lemma_text_run, marker_free, scan,
};
use crate::token::TokenView;

verus! {

/// A line that is not empty and holds none of `_`, `*` and `#` is scanned as
/// one text token that holds the line, and is formatted as the line between
/// paragraph tags.
pub proof fn lemma_plain_line(line: Seq<char>)
    requires
        line.len() > 0,
        marker_free(line),
    ensures
        scan(line) == seq![TokenView::Text(line)],
        fragment(scan(line)) == Ok::<Seq<char>, TokenView>("<p>"@ + line + "</p>"@),
{
    lemma_scan_text_then(line, Seq::empty());
    lemma_body_is_walk(scan(line));
    lemma_walk_text(line, Seq::empty(), false, false);
}

/// A line that starts with one to three `#` and holds no other `#` is
/// formatted as a heading of that depth: the body of what follows the run,
/// between the heading's tags.
pub proof fn lemma_heading_line(k: nat, rest: Seq<char>)
    requires
        1 <= k <= 3,
        free_of(rest, '#'),
    ensures
        scan(hashes(k) + rest) == seq![TokenView::Hash((k - 1) as nat)] + scan(rest),
        k == 1 ==> fragment(scan(hashes(k) + rest)) == Ok::<Seq<char>, TokenView>(
            "<h1>"@ + body(scan(rest)) + "</h1>"@,
        ),
        k == 2 ==> fragment(scan(hashes(k) + rest)) == Ok::<Seq<char>, TokenView>(
            "<h2>"@ + body(scan(rest)) + "</h2>"@,
        ),
        k == 3 ==> fragment(scan(hashes(k) + rest)) == Ok::<Seq<char>, TokenView>(
            "<h3>"@ + body(scan(rest)) + "</h3>"@,
        ),
{
    lemma_scan_hashes_then(k, rest);
    lemma_scan_without(rest);
    let level: nat = (k - 1) as nat;
    let tokens = seq![TokenView::Hash(level)] + scan(rest);
    lemma_fragment_ok(tokens);
    lemma_body_is_walk(tokens);
    lemma_body_is_walk(scan(rest));
    lemma_walk_heading(level, scan(rest), false, false);
}

/// A line that starts with four or more `#` is rejected for its heading
/// marker.
pub proof fn lemma_deep_heading_line(k: nat, rest: Seq<char>)
    requires
        k >= 4,
        rest.len() > 0 ==> rest[0] != '#',
    ensures
        fragment(scan(hashes(k) + rest)) == Err::<Seq<char>, TokenView>(
            TokenView::Hash((k - 1) as nat),
        ),
{
    lemma_scan_hashes_then(k, rest);
}

/// A line with exactly two `*` and no other marker is formatted with the
/// text between the two in one pair of strong-emphasis tags, opened once and
/// closed once. The line is a paragraph where text comes before the first
/// `*`, and stands bare where the line starts with it.
pub proof fn lemma_asterisk_pair(a: Seq<char>, b: Seq<char>, c: Seq<char>)
    requires
        marker_free(a),
        marker_free(b),
        marker_free(c),
    ensures
        ({
            let line = a + seq!['*'] + b + seq!['*'] + c;
            let inner = a + "<b>"@ + b + "</b>"@ + c;
            fragment(scan(line)) == Ok::<Seq<char>, TokenView>(
                if a.len() > 0 {
                    "<p>"@ + inner + "</p>"@
                } else {
                    inner
                },
            )
        }),
{
    let line = a + seq!['*'] + b + seq!['*'] + c;
    let none = Seq::<char>::empty();
    let r3 = seq!['*'] + c;
    let r2 = b + r3;
    let r1 = seq!['*'] + r2;
    assert(line =~= a + r1);
    lemma_scan_text_then(c, none);
    lemma_scan_toggle_then(c);
    lemma_scan_text_then(b, r3);
    lemma_scan_toggle_then(r2);
    lemma_scan_text_then(a, r1);
    let t3 = seq![TokenView::Asterisk] + scan(c);
    let t2 = text_tokens(b) + t3;
    let t1 = seq![TokenView::Asterisk] + t2;
    let tokens = text_tokens(a) + t1;
    lemma_fragment_ok(tokens);
    lemma_body_is_walk(tokens);
    lemma_walk_text(a, t1, false, false);
    lemma_walk_toggle(t2, false, false);
    lemma_walk_text(b, t3, true, false);
    lemma_walk_toggle(scan(c), true, false);
    lemma_walk_text(c, Seq::empty(), false, false);
    assert(body(tokens) =~= a + "<b>"@ + b + "</b>"@ + c);
}

/// A token in front adds one to the count of its kind and nothing to the
/// counts of the other kinds.
proof fn lemma_toggles_before_first(first: TokenView, rest: Seq<TokenView>, mark: TokenView, n: int)
    requires
        0 <= n <= rest.len(),
    ensures
        toggles_before(seq![first] + rest, mark, n + 1) == toggles_before(rest, mark, n) + if first
            == mark {
            1nat
        } else {
            0nat
        },
    decreases n,
{
    if n > 0 {
        lemma_toggles_before_first(first, rest, mark, n - 1);
    } else {
        assert(toggles_before(seq![first] + rest, mark, 0) == 0);
    }
}

/// A line has as many strong-emphasis toggles among its tokens as it has `*`
/// among its characters, and as many emphasis toggles as it has `_`.
pub proof fn lemma_scan_toggles(s: Seq<char>)
    ensures
        toggles_before(scan(s), TokenView::Asterisk, scan(s).len() as int) == occurrences(s, '*'),
        toggles_before(scan(s), TokenView::Underscore, scan(s).len() as int) == occurrences(
            s,
            '_',
        ),
    decreases s.len(),
{
    if s.len() > 0 {
        lemma_hash_run(s);
        lemma_text_run(s);
        let k: int = first_span(s) as int;
        let rest = s.skip(k);
        lemma_scan_toggles(rest);
        let first = first_token(s);
        let n: int = scan(rest).len() as int;
        lemma_toggles_before_first(first, scan(rest), TokenView::Asterisk, n);
        lemma_toggles_before_first(first, scan(rest), TokenView::Underscore, n);
        if s[0] != '_' && s[0] != '*' {
            lemma_occurrences_skip(s, '*', k);
            lemma_occurrences_skip(s, '_', k);
        }
    }
}

/// Of the `*` of a line, the first, the third and so on open a
/// strong-emphasis tag and the others close one; the `_` do the same with
/// emphasis tags. So a line closes every tag that it opens where it holds an
/// even number of the toggle, and leaves one tag open where it holds an odd
/// number.
pub proof fn lemma_toggle_tags(line: Seq<char>)
    ensures
        ({
            let tokens = scan(line);
            let n: int = tokens.len() as int;
            &&& opened_before(tokens, TokenView::Asterisk, n) == (occurrences(line, '*') + 1) / 2
            &&& closed_before(tokens, TokenView::Asterisk, n) == occurrences(line, '*') / 2
            &&& opened_before(tokens, TokenView::Underscore, n) == (occurrences(line, '_') + 1) / 2
            &&& closed_before(tokens, TokenView::Underscore, n) == occurrences(line, '_') / 2
        }),
{
    let tokens = scan(line);
    lemma_scan_toggles(line);
    lemma_toggle_balance(tokens, TokenView::Asterisk, tokens.len() as int);
    lemma_toggle_balance(tokens, TokenView::Underscore, tokens.len() as int);
}

/// A line with exactly one `*` opens one strong-emphasis tag and closes
/// none.
pub proof fn lemma_lone_asterisk(line: Seq<char>)
    requires
        occurrences(line, '*') == 1,
    ensures
        opened_before(scan(line), TokenView::Asterisk, scan(line).len() as int) == 1,
        closed_before(scan(line), TokenView::Asterisk, scan(line).len() as int) == 0,
{
    lemma_toggle_tags(line);
}

/// A line with exactly one `*` and no other marker is formatted with an
/// opening strong-emphasis tag in place of the `*` and with no closing tag
/// for it.
pub proof fn lemma_lone_asterisk_line(a: Seq<char>, b: Seq<char>)
    requires
        marker_free(a),
        marker_free(b),
    ensures
        ({
            let line = a + seq!['*'] + b;
            let inner = a + "<b>"@ + b;
            fragment(scan(line)) == Ok::<Seq<char>, TokenView>(
                if a.len() > 0 {
                    "<p>"@ + inner + "</p>"@
                } else {
                    inner
                },
            )
        }),
{
    let line = a + seq!['*'] + b;
    let none = Seq::<char>::empty();
    let r1 = seq!['*'] + b;
    assert(line =~= a + r1);
    lemma_scan_text_then(b, none);
    lemma_scan_toggle_then(b);
    lemma_scan_text_then(a, r1);
    let t1 = seq![TokenView::Asterisk] + scan(b);
    let tokens = text_tokens(a) + t1;
    lemma_fragment_ok(tokens);
    lemma_body_is_walk(tokens);
    lemma_walk_text(a, t1, false, false);
    lemma_walk_toggle(scan(b), false, false);
    lemma_walk_text(b, Seq::empty(), true, false);
    assert(body(tokens) =~= a + "<b>"@ + b);
}

/// The two kinds of toggle nest in the order in which the line writes them:
/// `*_` around a text opens strong emphasis outside emphasis, `_*` opens
/// emphasis outside strong emphasis, and the two fragments differ.
pub proof fn lemma_nesting_follows_order(text: Seq<char>)
    requires
        marker_free(text),
    ensures
        fragment(scan(seq!['*', '_'] + text + seq!['_', '*'])) == Ok::<Seq<char>, TokenView>(
            "<b>"@ + "<em>"@ + text + "</em>"@ + "</b>"@,
        ),
        fragment(scan(seq!['_', '*'] + text + seq!['*', '_'])) == Ok::<Seq<char>, TokenView>(
            "<em>"@ + "<b>"@ + text + "</b>"@ + "</em>"@,
        ),
        fragment(scan(seq!['*', '_'] + text + seq!['_', '*'])) != fragment(
            scan(seq!['_', '*'] + text + seq!['*', '_']),
        ),
{
    let none = Seq::<char>::empty();
    let no_tokens = Seq::<TokenView>::empty();
    let star = TokenView::Asterisk;
    let under = TokenView::Underscore;
    lemma_scan_toggle_then(none);
    // `*_text_*`
    {
        let line = seq!['*', '_'] + text + seq!['_', '*'];
        let r4 = seq!['*'] + none;
        let r3 = seq!['_'] + r4;
        let r2 = text + r3;
        let r1 = seq!['_'] + r2;
        assert(line =~= seq!['*'] + r1);
        lemma_scan_toggle_then(r4);
        lemma_scan_text_then(text, r3);
        lemma_scan_toggle_then(r2);
        lemma_scan_toggle_then(r1);
        let t4 = seq![star] + no_tokens;
        let t3 = seq![under] + t4;
        let t2 = text_tokens(text) + t3;
        let t1 = seq![under] + t2;
        let tokens = seq![star] + t1;
        lemma_fragment_ok(tokens);
        lemma_body_is_walk(tokens);
        lemma_walk_toggle(t1, false, false);
        lemma_walk_toggle(t2, true, false);
        lemma_walk_text(text, t3, true, true);
        lemma_walk_toggle(t4, true, true);
        lemma_walk_toggle(no_tokens, true, false);
        assert(body(tokens) =~= "<b>"@ + "<em>"@ + text + "</em>"@ + "</b>"@);
    }
    // `_*text*_`
    {
        let line = seq!['_', '*'] + text + seq!['*', '_'];
        let r4 = seq!['_'] + none;
        let r3 = seq!['*'] + r4;
        let r2 = text + r3;
        let r1 = seq!['*'] + r2;
        assert(line =~= seq!['_'] + r1);
        lemma_scan_toggle_then(r4);
        lemma_scan_text_then(text, r3);
        lemma_scan_toggle_then(r2);
        lemma_scan_toggle_then(r1);
        let t4 = seq![under] + no_tokens;
        let t3 = seq![star] + t4;
        let t2 = text_tokens(text) + t3;
        let t1 = seq![star] + t2;
        let tokens = seq![under] + t1;
        lemma_fragment_ok(tokens);
        lemma_body_is_walk(tokens);
        lemma_walk_toggle(t1, false, false);
        lemma_walk_toggle(t2, false, true);
        lemma_walk_text(text, t3, true, true);
        lemma_walk_toggle(t4, true, true);
        lemma_walk_toggle(no_tokens, false, true);
        assert(body(tokens) =~= "<em>"@ + "<b>"@ + text + "</b>"@ + "</em>"@);
    }
    // The two fragments differ in their second character.
    reveal_strlit("<b>");
    reveal_strlit("<em>");
    assert(("<em>"@ + "<b>"@ + text + "</b>"@ + "</em>"@)[1] == 'e');
}

} // verus!
