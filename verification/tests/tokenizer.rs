use rush::lexer::{tokenize_line, Lexer};
use rush::token::Token;

fn cmd(s: &str) -> Token {
    Token::Command(s.to_string())
}

fn arg(s: &str) -> Token {
    Token::Argument(s.to_string())
}

fn lit(s: &str) -> Token {
    Token::StringLiteral(s.to_string())
}

#[test]
fn plain_words_split_on_whitespace() {
    let tokens = tokenize_line("ls -l foo");
    assert_eq!(
        tokens,
        vec![cmd("ls"), Token::Whitespace, arg("-l"), Token::Whitespace, arg("foo")]
    );
}

#[test]
fn whitespace_run_is_one_token() {
    let tokens = tokenize_line("a \t  b");
    assert_eq!(tokens, vec![cmd("a"), Token::Whitespace, arg("b")]);
}

#[test]
fn leading_and_trailing_whitespace() {
    let tokens = tokenize_line("  echo  ");
    assert_eq!(tokens, vec![Token::Whitespace, cmd("echo"), Token::Whitespace]);
}

#[test]
fn double_quoted_literal_keeps_content() {
    let tokens = tokenize_line("\"hello world\"");
    assert_eq!(tokens, vec![lit("hello world")]);
}

#[test]
fn single_quoted_literal_keeps_content() {
    let tokens = tokenize_line("'a  b\tc'");
    assert_eq!(tokens, vec![lit("a  b\tc")]);
}

#[test]
fn other_quote_kind_is_kept_verbatim() {
    let tokens = tokenize_line("\"it's\"");
    assert_eq!(tokens, vec![lit("it's")]);
}

#[test]
fn empty_quotes_are_an_empty_literal() {
    assert_eq!(tokenize_line("\"\""), vec![lit("")]);
    assert_eq!(tokenize_line("''"), vec![lit("")]);
}

#[test]
fn quote_ends_an_adjacent_word() {
    let tokens = tokenize_line("abc\"def\"");
    assert_eq!(tokens, vec![cmd("abc"), lit("def")]);
}

#[test]
fn unclosed_quote_is_illegal() {
    let tokens = tokenize_line("foo \"bar");
    assert_eq!(
        tokens,
        vec![cmd("foo"), Token::Whitespace, Token::Illegal("Unclosed quote: \"".to_string())]
    );
}

#[test]
fn unclosed_single_quote_names_the_quote() {
    let tokens = tokenize_line("'oops");
    assert_eq!(tokens, vec![Token::Illegal("Unclosed quote: '".to_string())]);
}

#[test]
fn empty_line_has_no_tokens() {
    assert_eq!(tokenize_line(""), vec![]);
}

#[test]
fn whitespace_only_line_is_one_whitespace_token() {
    assert_eq!(tokenize_line(" \t "), vec![Token::Whitespace]);
}

#[test]
fn command_is_first_unquoted_word_even_after_literal() {
    let tokens = tokenize_line("\"a\" b");
    assert_eq!(tokens, vec![lit("a"), Token::Whitespace, cmd("b")]);
}

#[test]
fn example_scenario_tokens() {
    let tokens = tokenize_line("echo \"hello world\" foo");
    assert_eq!(
        tokens,
        vec![
            cmd("echo"),
            Token::Whitespace,
            lit("hello world"),
            Token::Whitespace,
            arg("foo"),
        ]
    );
}

#[test]
fn next_token_after_exhaustion_keeps_returning_newline() {
    let mut lexer = Lexer::new("one".to_string());
    assert_eq!(lexer.next_token(), cmd("one"));
    assert_eq!(lexer.next_token(), Token::Newline);
    assert_eq!(lexer.next_token(), Token::Newline);
    assert_eq!(lexer.next_token(), Token::Newline);
}

#[test]
fn next_token_on_empty_input_is_newline_at_once() {
    let mut lexer = Lexer::new(String::new());
    assert_eq!(lexer.next_token(), Token::Newline);
    assert_eq!(lexer.next_token(), Token::Newline);
}

#[test]
fn unicode_words_survive_tokenizing() {
    let tokens = tokenize_line("h\u{e9}llo w\u{f6}rld");
    assert_eq!(tokens, vec![cmd("h\u{e9}llo"), Token::Whitespace, arg("w\u{f6}rld")]);
}

#[test]
fn unicode_whitespace_separates_words() {
    let tokens = tokenize_line("a\u{00a0}b");
    assert_eq!(tokens, vec![cmd("a"), Token::Whitespace, arg("b")]);
}

#[test]
fn literal_after_unclosed_report_continues() {
    let tokens = tokenize_line("x 'rest of line");
    assert_eq!(
        tokens,
        vec![cmd("x"), Token::Whitespace, Token::Illegal("Unclosed quote: '".to_string())]
    );
}
