use lexer::lexer::Lexer;
use lexer::lexer::VecLexerString;
use lexer::token::LexerError;
use lexer::token::Token;

/// The driving loop the tokenizer is written for: scan until the near-end
/// check stops the loop, collect tokens, stop on the first error.
fn scan(input: &str) -> Result<Vec<Token>, LexerError> {
    let mut lexer: Lexer<VecLexerString> = Lexer::new(input);
    let mut tokens: Vec<Token> = vec![];
    while !lexer.eof() {
        match lexer.next_token() {
            Err(e) => return Err(e),
            Ok(None) => {}
            Ok(Some(token)) => tokens.push(token),
        }
    }
    Ok(tokens)
}

#[test]
fn parse_operators_and_numbers() {
    let test_string: &str = "124 + 238 +/34 -18";
    let mut lexer: Lexer<VecLexerString> = Lexer::new(test_string);
    let mut tokens: Vec<Token> = vec![];
    while !lexer.eof() {
        match lexer.next_token() {
            Err(_) => panic!("Lexer error"),
            Ok(None) => {}
            Ok(Some(token)) => tokens.push(token),
        }
    }
    println!("{:#?}", tokens);
    assert_eq!(
        tokens,
        vec![
            Token::Number(Vec::<u8>::from(b"124")),
            Token::Operator(Vec::<u8>::from(b"+")),
            Token::Number(Vec::<u8>::from(b"238")),
            Token::Operator(Vec::<u8>::from(b"+")),
            Token::Operator(Vec::<u8>::from(b"/")),
            Token::Number(Vec::<u8>::from(b"34")),
            Token::Operator(Vec::<u8>::from(b"-")),
            Token::Number(Vec::<u8>::from(b"18"))
        ]
    )
}

#[test]
fn digits_operators_whitespace_only() {
    let tokens = scan("7 * 42").expect("no error expected");
    assert_eq!(
        tokens,
        vec![
            Token::Number(Vec::<u8>::from(b"7")),
            Token::Operator(Vec::<u8>::from(b"*")),
            Token::Number(Vec::<u8>::from(b"42")),
        ]
    );
}

#[test]
fn whitespace_kinds_between_tokens() {
    // Tabs and runs of spaces separate tokens, split no run, and produce no
    // token of their own.
    let tokens = scan("1\t+ 23").expect("no error expected");
    assert_eq!(
        tokens,
        vec![
            Token::Number(Vec::<u8>::from(b"1")),
            Token::Operator(Vec::<u8>::from(b"+")),
            Token::Number(Vec::<u8>::from(b"23")),
        ]
    );
    let tokens = scan("12   34").expect("no error expected");
    assert_eq!(
        tokens,
        vec![
            Token::Number(Vec::<u8>::from(b"12")),
            Token::Number(Vec::<u8>::from(b"34")),
        ]
    );
}

#[test]
fn adjacent_operators_each_tokenized() {
    // Each of the two adjacent operators is its own single-byte token.
    let mut lexer: Lexer<VecLexerString> = Lexer::new("1+/2");
    assert_eq!(
        lexer.next_token().unwrap(),
        Some(Token::Number(Vec::<u8>::from(b"1")))
    );
    assert_eq!(
        lexer.next_token().unwrap(),
        Some(Token::Operator(Vec::<u8>::from(b"+")))
    );
    assert_eq!(
        lexer.next_token().unwrap(),
        Some(Token::Operator(Vec::<u8>::from(b"/")))
    );
    assert_eq!(
        lexer.next_token().unwrap(),
        Some(Token::Number(Vec::<u8>::from(b"2")))
    );
}

#[test]
fn adjacent_operators_through_the_loop() {
    let tokens = scan("1+/23").expect("no error expected");
    assert_eq!(
        tokens,
        vec![
            Token::Number(Vec::<u8>::from(b"1")),
            Token::Operator(Vec::<u8>::from(b"+")),
            Token::Operator(Vec::<u8>::from(b"/")),
            Token::Number(Vec::<u8>::from(b"23")),
        ]
    );
}

#[test]
fn alphabetic_run_skipped_without_error() {
    // The alphabetic run yields no token and no error, and what follows it is
    // tokenized as if the run were not there.
    let mut lexer: Lexer<VecLexerString> = Lexer::new("12abc+3");
    assert_eq!(
        lexer.next_token().unwrap(),
        Some(Token::Number(Vec::<u8>::from(b"12")))
    );
    assert_eq!(lexer.next_token().unwrap(), None);
    assert_eq!(
        lexer.next_token().unwrap(),
        Some(Token::Operator(Vec::<u8>::from(b"+")))
    );
    assert_eq!(
        lexer.next_token().unwrap(),
        Some(Token::Number(Vec::<u8>::from(b"3")))
    );
}

#[test]
fn alphabetic_run_skipped_through_the_loop() {
    let tokens = scan("12abc+34").expect("no error expected");
    assert_eq!(
        tokens,
        vec![
            Token::Number(Vec::<u8>::from(b"12")),
            Token::Operator(Vec::<u8>::from(b"+")),
            Token::Number(Vec::<u8>::from(b"34")),
        ]
    );
}

#[test]
fn unrecognized_byte_is_an_error() {
    assert!(scan("1@2").is_err());
}

#[test]
fn parenthesis_byte_is_an_error() {
    // Parenthesis token variants exist but no branch produces them: a
    // parenthesis byte in the input falls into the error branch.
    assert!(scan("(1)").is_err());
}

#[test]
fn tokenizing_twice_is_deterministic() {
    let input = "124 + 238 +/34 -18";
    let first = scan(input).expect("no error expected");
    let second = scan(input).expect("no error expected");
    assert_eq!(first, second);
}

#[test]
fn empty_input_yields_no_tokens() {
    let tokens = scan("").expect("no error expected");
    assert!(tokens.is_empty());
}

#[test]
fn single_whitespace_yields_no_tokens() {
    let tokens = scan(" ").expect("no error expected");
    assert!(tokens.is_empty());
}

#[test]
fn longer_whitespace_runs_past_the_end() {
    // With two or more trailing whitespace bytes the near-end check still
    // admits a step; that step skips past the end onto the NUL sentinel,
    // which no branch recognizes.
    assert!(scan("  ").is_err());
    assert!(scan("1 +  ").is_err());
}

#[test]
fn near_end_check_stops_before_a_last_byte() {
    // The driving loop's termination check is "fewer than two unread bytes
    // remain", so a token that is the whole one-byte input is never requested.
    let tokens = scan("1").expect("no error expected");
    assert!(tokens.is_empty());
    // A trailing one-byte token after another token is dropped the same way.
    let tokens = scan("1+2").expect("no error expected");
    assert_eq!(
        tokens,
        vec![
            Token::Number(Vec::<u8>::from(b"1")),
            Token::Operator(Vec::<u8>::from(b"+")),
        ]
    );
}

#[test]
fn eof_only_after_lookahead_leaves_the_buffer() {
    let lexer: Lexer<VecLexerString> = Lexer::new("12");
    assert!(!lexer.eof());
    let lexer: Lexer<VecLexerString> = Lexer::new("1");
    assert!(lexer.eof());
    let lexer: Lexer<VecLexerString> = Lexer::new("");
    assert!(lexer.eof());
}

#[test]
fn token_equality_compares_run_bytes() {
    assert_eq!(
        Token::Number(Vec::<u8>::from(b"12")),
        Token::Number(Vec::<u8>::from(b"12"))
    );
    assert_ne!(
        Token::Number(Vec::<u8>::from(b"12")),
        Token::Number(Vec::<u8>::from(b"13"))
    );
    assert_ne!(
        Token::Number(Vec::<u8>::from(b"1")),
        Token::Operator(Vec::<u8>::from(b"1"))
    );
    assert_eq!(Token::OpenParenthesis, Token::OpenParenthesis);
    assert_ne!(Token::OpenParenthesis, Token::ClosedParenthesis);
}

#[test]
fn error_message_text() {
    let err = LexerError::new();
    assert_eq!(err.message(), "Lexer error encountered");
}
