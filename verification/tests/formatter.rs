use mdhtml::{parse, Token};

fn text(s: &str) -> Token {
    Token::Text(s.to_string())
}

fn html(tokens: Vec<Token>) -> String {
    parse(tokens).unwrap()
}

#[test]
fn text_first_makes_a_paragraph() {
    assert_eq!(html(vec![text("hello world")]), "<p>hello world</p>");
}

#[test]
fn empty_text_makes_an_empty_paragraph() {
    assert_eq!(html(vec![text("")]), "<p></p>");
}

#[test]
fn heading_levels_select_heading_tags() {
    assert_eq!(html(vec![Token::Hash(0), text(" Title")]), "<h1> Title</h1>");
    assert_eq!(html(vec![Token::Hash(1), text(" Sub")]), "<h2> Sub</h2>");
    assert_eq!(html(vec![Token::Hash(2), text("x")]), "<h3>x</h3>");
}

#[test]
fn heading_marker_alone_is_an_empty_heading() {
    assert_eq!(html(vec![Token::Hash(0)]), "<h1></h1>");
}

#[test]
fn toggle_first_leaves_the_fragment_bare() {
    assert_eq!(html(vec![Token::Asterisk, text("a")]), "<b>a");
    assert_eq!(html(vec![Token::Underscore, text("a")]), "<em>a");
    assert_eq!(html(vec![Token::Asterisk]), "<b>");
    assert_eq!(html(vec![Token::Underscore]), "<em>");
}

#[test]
fn two_asterisks_open_and_close() {
    assert_eq!(
        html(vec![text("a "), Token::Asterisk, text("b"), Token::Asterisk, text(" c")]),
        "<p>a <b>b</b> c</p>"
    );
}

#[test]
fn two_underscores_open_and_close() {
    assert_eq!(
        html(vec![text("a "), Token::Underscore, text("b"), Token::Underscore, text(" c")]),
        "<p>a <em>b</em> c</p>"
    );
}

#[test]
fn one_asterisk_stays_open() {
    // An odd number of toggles leaves the tag open: nothing closes it.
    assert_eq!(html(vec![text("a "), Token::Asterisk, text("b")]), "<p>a <b>b</p>");
}

#[test]
fn three_asterisks_open_close_open() {
    assert_eq!(
        html(vec![Token::Asterisk, Token::Asterisk, Token::Asterisk]),
        "<b></b><b>"
    );
}

#[test]
fn four_underscores_open_close_twice() {
    assert_eq!(
        html(vec![
            Token::Underscore,
            Token::Underscore,
            Token::Underscore,
            Token::Underscore,
        ]),
        "<em></em><em></em>"
    );
}

#[test]
fn toggles_are_independent() {
    // `*a_b*c_`: the tags are not rebalanced.
    assert_eq!(
        html(vec![
            Token::Asterisk,
            text("a"),
            Token::Underscore,
            text("b"),
            Token::Asterisk,
            text("c"),
            Token::Underscore,
        ]),
        "<b>a<em>b</b>c</em>"
    );
}

#[test]
fn toggles_inside_a_heading() {
    assert_eq!(
        html(vec![Token::Hash(1), text(" a "), Token::Asterisk, text("b"), Token::Asterisk]),
        "<h2> a <b>b</b></h2>"
    );
}

#[test]
fn text_is_not_escaped() {
    assert_eq!(html(vec![text("a < b & c")]), "<p>a < b & c</p>");
}

#[test]
fn deep_heading_is_rejected() {
    assert_eq!(parse(vec![Token::Hash(3), text(" deep")]), Err(Token::Hash(3)));
    assert_eq!(parse(vec![Token::Hash(7)]), Err(Token::Hash(7)));
}

#[test]
fn heading_marker_behind_the_first_token_is_rejected() {
    assert_eq!(parse(vec![text("a"), Token::Hash(0), text("b")]), Err(Token::Hash(0)));
    assert_eq!(parse(vec![Token::Asterisk, Token::Hash(1)]), Err(Token::Hash(1)));
    assert_eq!(parse(vec![Token::Hash(0), text(" a "), Token::Hash(0)]), Err(Token::Hash(0)));
}

#[test]
fn first_stray_heading_marker_is_the_offending_token() {
    assert_eq!(
        parse(vec![text("a"), Token::Hash(1), text("b"), Token::Hash(5)]),
        Err(Token::Hash(1))
    );
}

#[test]
fn deep_first_heading_comes_before_a_stray_one() {
    assert_eq!(parse(vec![Token::Hash(4), Token::Hash(0)]), Err(Token::Hash(4)));
}
