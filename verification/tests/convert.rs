use mdhtml::{convert, convert_line, FormatError, Token};

fn fragment(line: &str) -> String {
    convert_line(line, 1).unwrap().unwrap()
}

fn lines(text: &[&str]) -> Vec<String> {
    text.iter().map(|l| l.to_string()).collect()
}

#[test]
fn plain_line_becomes_a_paragraph() {
    assert_eq!(fragment("hello world"), "<p>hello world</p>");
}

#[test]
fn single_hash_becomes_a_first_level_heading() {
    assert_eq!(fragment("# Title"), "<h1> Title</h1>");
}

#[test]
fn double_hash_becomes_a_second_level_heading() {
    assert_eq!(fragment("## Sub"), "<h2> Sub</h2>");
}

#[test]
fn triple_hash_becomes_a_third_level_heading() {
    assert_eq!(fragment("###x"), "<h3>x</h3>");
}

#[test]
fn bold_and_emphasis_in_a_paragraph() {
    assert_eq!(fragment("say *bold* and _em_"), "<p>say <b>bold</b> and <em>em</em></p>");
}

#[test]
fn line_that_starts_with_a_toggle_has_no_paragraph_tags() {
    assert_eq!(fragment("*bold* and _em_"), "<b>bold</b> and <em>em</em>");
    assert_eq!(fragment("_em_ and *bold*"), "<em>em</em> and <b>bold</b>");
}

#[test]
fn empty_line_gives_no_fragment() {
    assert_eq!(convert_line("", 1), None);
}

#[test]
fn whitespace_line_is_a_paragraph() {
    assert_eq!(fragment("  "), "<p>  </p>");
}

#[test]
fn four_hashes_are_an_error() {
    assert_eq!(
        convert_line("#### deep", 1),
        Some(Err(FormatError { token: Token::Hash(3), line: 1 }))
    );
}

#[test]
fn hash_inside_a_line_is_an_error() {
    assert_eq!(
        convert_line("a # b", 12),
        Some(Err(FormatError { token: Token::Hash(0), line: 12 }))
    );
    assert_eq!(
        convert_line("# a ## b", 3),
        Some(Err(FormatError { token: Token::Hash(1), line: 3 }))
    );
}

#[test]
fn line_without_markers_is_wrapped_unchanged() {
    for line in ["x", "a b c", "<i>kept</i>", " lead and trail ", "\u{e9}t\u{e9}"] {
        assert_eq!(fragment(line), format!("<p>{}</p>", line));
    }
}

#[test]
fn hash_run_selects_the_heading_depth() {
    assert_eq!(fragment("# a"), "<h1> a</h1>");
    assert_eq!(fragment("## a"), "<h2> a</h2>");
    assert_eq!(fragment("### a"), "<h3> a</h3>");
    assert_eq!(fragment("#"), "<h1></h1>");
    assert_eq!(fragment("## *a*"), "<h2> <b>a</b></h2>");
}

#[test]
fn pair_of_asterisks_wraps_the_text_between() {
    assert_eq!(fragment("a *b* c"), "<p>a <b>b</b> c</p>");
    assert_eq!(fragment("*b* c"), "<b>b</b> c");
    assert_eq!(fragment("**"), "<b></b>");
}

#[test]
fn lone_asterisk_is_left_open() {
    // One `*` opens the tag and nothing closes it; this is the intended result.
    assert_eq!(fragment("a *b"), "<p>a <b>b</p>");
    assert_eq!(fragment("*"), "<b>");
    assert!(!fragment("a *b").contains("</b>"));
}

#[test]
fn every_second_toggle_closes_what_the_one_before_opened() {
    // With n toggles of a kind, (n + 1) / 2 tags are opened and n / 2 are closed.
    for (line, stars, unders) in [
        ("a", 0, 0),
        ("*", 1, 0),
        ("a*b*c", 2, 0),
        ("***", 3, 0),
        ("a*b*c*d*e", 4, 0),
        ("_", 0, 1),
        ("_*_*_", 2, 3),
        ("x_*y_z", 1, 2),
    ] {
        let html = fragment(line);
        assert_eq!(html.matches("<b>").count(), (stars + 1) / 2);
        assert_eq!(html.matches("</b>").count(), stars / 2);
        assert_eq!(html.matches("<em>").count(), (unders + 1) / 2);
        assert_eq!(html.matches("</em>").count(), unders / 2);
    }
}

#[test]
fn nesting_follows_the_order_of_the_markers() {
    assert_eq!(fragment("*_text_*"), "<b><em>text</em></b>");
    assert_eq!(fragment("_*text*_"), "<em><b>text</b></em>");
    assert_ne!(fragment("*_text_*"), fragment("_*text*_"));
}

#[test]
fn crossing_toggles_are_not_rebalanced() {
    assert_eq!(fragment("*a_b*c_"), "<b>a<em>b</b>c</em>");
}

#[test]
fn no_lines_give_no_fragments() {
    assert_eq!(convert(&[]), Vec::new());
}

#[test]
fn blank_lines_are_skipped() {
    assert_eq!(
        convert(&lines(&["", "a", "", "", "# b", ""])),
        vec![Ok("<p>a</p>".to_string()), Ok("<h1> b</h1>".to_string())]
    );
}

#[test]
fn fragments_keep_the_order_of_the_lines() {
    assert_eq!(
        convert(&lines(&["# Title", "hello world", "## Sub", "*bold* and _em_"])),
        vec![
            Ok("<h1> Title</h1>".to_string()),
            Ok("<p>hello world</p>".to_string()),
            Ok("<h2> Sub</h2>".to_string()),
            Ok("<b>bold</b> and <em>em</em>".to_string()),
        ]
    );
}

#[test]
fn bad_line_does_not_stop_the_others() {
    assert_eq!(
        convert(&lines(&["one", "#### deep", "", "a#b", "two"])),
        vec![
            Ok("<p>one</p>".to_string()),
            Err(FormatError { token: Token::Hash(3), line: 2 }),
            Err(FormatError { token: Token::Hash(0), line: 4 }),
            Ok("<p>two</p>".to_string()),
        ]
    );
}

#[test]
fn toggles_do_not_carry_over_to_the_next_line() {
    assert_eq!(
        convert(&lines(&["a *b", "c *d"])),
        vec![Ok("<p>a <b>b</p>".to_string()), Ok("<p>c <b>d</p>".to_string())]
    );
}

#[test]
fn errors_compare_by_token_and_line() {
    assert_eq!(
        FormatError { token: Token::Hash(3), line: 2 },
        FormatError { token: Token::Hash(3), line: 2 }
    );
    assert_ne!(
        FormatError { token: Token::Hash(3), line: 2 },
        FormatError { token: Token::Hash(3), line: 3 }
    );
    assert_ne!(
        FormatError { token: Token::Hash(3), line: 2 },
        FormatError { token: Token::Hash(4), line: 2 }
    );
}
