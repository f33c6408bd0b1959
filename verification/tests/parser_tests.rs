use rshell::parser::{merge_tokens, parse_line, LineStatus};

fn chars(s: &str) -> Vec<char> {
    s.chars().collect()
}

fn toks(ts: &[&str]) -> Vec<Vec<char>> {
    ts.iter().map(|t| chars(t)).collect()
}

#[test]
fn words_without_quotes_are_tokens() {
    let mut status = LineStatus::Complete;
    let tokens = parse_line(&chars("echo one two three"), &mut status);
    assert_eq!(tokens, toks(&["echo", "one", "two", "three"]));
    assert_eq!(status, LineStatus::Complete);
}

#[test]
fn repeated_whitespace_separates_once() {
    let mut status = LineStatus::Complete;
    let tokens = parse_line(&chars("  ls   -l  "), &mut status);
    assert_eq!(tokens, toks(&["ls", "-l"]));
    assert_eq!(status, LineStatus::Complete);
}

#[test]
fn empty_line_has_no_tokens() {
    let mut status = LineStatus::Complete;
    let tokens = parse_line(&chars(""), &mut status);
    assert!(tokens.is_empty());
    assert_eq!(status, LineStatus::Complete);
}

#[test]
fn quoted_string_keeps_whitespace() {
    let mut status = LineStatus::Complete;
    let tokens = parse_line(&chars("echo \"hello world\""), &mut status);
    assert_eq!(tokens, toks(&["echo", "hello world"]));
    assert_eq!(status, LineStatus::Complete);
}

#[test]
fn mismatched_quote_characters_close_each_other() {
    // Deliberate permissive pairing: a string opened with `"` may be closed
    // by `'`.
    let mut status = LineStatus::Complete;
    let tokens = parse_line(&chars("echo \"mixed'"), &mut status);
    assert_eq!(tokens, toks(&["echo", "mixed"]));
    assert_eq!(status, LineStatus::Complete);
}

#[test]
fn open_quote_leaves_line_incomplete() {
    let mut status = LineStatus::Complete;
    let tokens = parse_line(&chars("echo \"hello"), &mut status);
    assert_eq!(tokens, toks(&["echo", "hello\n"]));
    assert_eq!(status, LineStatus::Incomplete);
}

#[test]
fn quoted_string_spans_two_lines() {
    let mut status = LineStatus::Complete;
    let mut acc: Vec<Vec<char>> = Vec::new();

    let first = parse_line(&chars("echo \"hello"), &mut status);
    assert_eq!(status, LineStatus::Incomplete);
    merge_tokens(&mut acc, &first);

    let second = parse_line(&chars("world\""), &mut status);
    assert_eq!(status, LineStatus::Complete);
    merge_tokens(&mut acc, &second);

    assert_eq!(acc, toks(&["echo", "hello\nworld"]));
}

#[test]
fn merge_into_empty_accumulator_takes_tokens_as_they_are() {
    let mut acc: Vec<Vec<char>> = Vec::new();
    merge_tokens(&mut acc, &toks(&["a", "b"]));
    assert_eq!(acc, toks(&["a", "b"]));
}

#[test]
fn merge_appends_later_tokens_after_the_joined_one() {
    let mut status = LineStatus::Incomplete;
    let mut acc = toks(&["echo", "one\n"]);
    let more = parse_line(&chars("two\" three"), &mut status);
    assert_eq!(status, LineStatus::Complete);
    merge_tokens(&mut acc, &more);
    assert_eq!(acc, toks(&["echo", "one\ntwo", "three"]));
}

#[test]
fn merge_with_no_new_tokens_changes_nothing() {
    let mut acc = toks(&["echo", "one\n"]);
    merge_tokens(&mut acc, &Vec::new());
    assert_eq!(acc, toks(&["echo", "one\n"]));
}
