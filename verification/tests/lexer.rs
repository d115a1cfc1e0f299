use minishell::lexer::{tokenize, Lexer, QuoteState};

fn tokens(line: &str) -> Vec<String> {
    tokenize(line).0
}

fn closed() -> QuoteState {
    QuoteState { single_open: false, double_open: false, escape_pending: false }
}

#[test]
fn words_are_cut_at_spaces() {
    assert_eq!(tokens("echo hello world"), vec!["echo", "hello", "world"]);
    assert_eq!(tokenize("echo hello world").1, closed());
}

#[test]
fn runs_of_spaces_make_no_empty_token() {
    assert_eq!(tokens("  echo   a  "), vec!["echo", "a"]);
    assert_eq!(tokens(""), Vec::<String>::new());
    assert_eq!(tokens("    "), Vec::<String>::new());
}

#[test]
fn single_quotes_keep_spaces() {
    assert_eq!(tokens("echo 'foo   bar'"), vec!["echo", "foo   bar"]);
}

#[test]
fn single_quotes_keep_backslashes_and_double_quotes() {
    assert_eq!(tokens(r#"echo 'a\b"c'"#), vec!["echo", r#"a\b"c"#]);
}

#[test]
fn escaped_double_quote_inside_double_quotes() {
    assert_eq!(tokens(r#"echo "a\"b""#), vec!["echo", r#"a"b"#]);
}

#[test]
fn double_backslash_inside_double_quotes_is_one() {
    assert_eq!(tokens(r#""a\\b""#), vec![r#"a\b"#]);
}

#[test]
fn other_backslash_inside_double_quotes_stays() {
    assert_eq!(tokens(r#""a\nb""#), vec![r#"a\nb"#]);
    assert_eq!(tokens(r#""a\$b""#), vec![r#"a\$b"#]);
}

#[test]
fn single_quote_inside_double_quotes_is_literal() {
    assert_eq!(tokens(r#""it's""#), vec!["it's"]);
}

#[test]
fn backslash_outside_quotes_takes_next_character_literally() {
    assert_eq!(tokens(r"a\ b"), vec!["a b"]);
    assert_eq!(tokens(r"\'a"), vec!["'a"]);
    assert_eq!(tokens(r#"\"a"#), vec!["\"a"]);
    assert_eq!(tokens(r"a\nb"), vec!["anb"]);
}

#[test]
fn backslash_after_backslash_outside_quotes_keeps_the_escape() {
    assert_eq!(tokens(r"a\\ b"), vec!["a b"]);
    assert_eq!(
        tokenize(r"a\\").1,
        QuoteState { single_open: false, double_open: false, escape_pending: true }
    );
}

#[test]
fn adjacent_quoted_parts_make_one_token() {
    assert_eq!(tokens(r#"a'b c'"d e"f"#), vec!["ab cd ef"]);
}

#[test]
fn empty_quotes_make_no_token() {
    assert_eq!(tokens("echo ''"), vec!["echo"]);
    assert_eq!(tokens(r#""""#), Vec::<String>::new());
}

#[test]
fn open_single_quote_is_reported() {
    let (found, quotes) = tokenize("echo 'abc");
    assert_eq!(found, vec!["echo", "abc"]);
    assert_eq!(quotes, QuoteState { single_open: true, double_open: false, escape_pending: false });
    assert!(quotes.is_unbalanced());
}

#[test]
fn open_double_quote_is_reported() {
    let (found, quotes) = tokenize("\"abc\\");
    assert_eq!(found, vec!["abc\\"]);
    assert_eq!(quotes, QuoteState { single_open: false, double_open: true, escape_pending: true });
    assert!(quotes.is_unbalanced());
}

#[test]
fn newline_is_an_ordinary_character() {
    assert_eq!(tokens("a\nb c"), vec!["a\nb", "c"]);
}

#[test]
fn tab_is_an_ordinary_character() {
    assert_eq!(tokens("a\tb"), vec!["a\tb"]);
}

#[test]
fn operators_are_tokens_like_any_other() {
    assert_eq!(tokens("a | b > c 2>> d"), vec!["a", "|", "b", ">", "c", "2>>", "d"]);
    assert_eq!(tokens("a|b>c"), vec!["a|b>c"]);
}

#[test]
fn lexer_fed_in_pieces_equals_lexer_fed_at_once() {
    let mut lexer = Lexer::new();
    lexer.push_str("echo 'a");
    assert!(lexer.quotes().is_unbalanced());
    lexer.push_char('\n');
    lexer.push_str("b' c");
    assert!(!lexer.quotes().is_unbalanced());
    assert_eq!(lexer.finish(), tokens("echo 'a\nb' c"));
}

#[test]
fn no_token_is_empty() {
    for line in ["a  b", "'' \"\" x", " \\  ", "a '' b"] {
        for token in tokens(line) {
            assert!(!token.is_empty());
        }
    }
}
