use lexer::scanner::Scanner;
use lexer::token::{LexError, Token, TokenType};

fn lex_ok(src: &str) -> Vec<Token> {
    Scanner::new(src).lex().expect("scan should succeed")
}

fn lex_err(src: &str) -> LexError {
    Scanner::new(src).lex().expect_err("scan should fail")
}

#[test]
fn empty_source_yields_no_tokens() {
    assert!(lex_ok("").is_empty());
}

#[test]
fn single_operator_characters() {
    let cases = [
        ("(", TokenType::LeftParen),
        (")", TokenType::RightParen),
        ("{", TokenType::LeftBrace),
        ("}", TokenType::RightBrace),
        (",", TokenType::Comma),
        (".", TokenType::Dot),
        (";", TokenType::SemiColon),
        ("+", TokenType::Plus),
        ("-", TokenType::Minus),
        ("*", TokenType::Star),
        ("/", TokenType::Slash),
        ("=", TokenType::Equal),
        ("<", TokenType::Less),
        (">", TokenType::Greater),
        ("!", TokenType::Neg),
    ];
    for (src, kind) in cases.iter() {
        let toks = lex_ok(src);
        assert_eq!(toks.len(), 1, "source {:?}", src);
        assert_eq!(toks[0].kind, *kind, "source {:?}", src);
        assert!(toks[0].literal.is_none(), "source {:?}", src);
        assert_eq!(toks[0].line, 0, "source {:?}", src);
        assert_eq!(toks[0].column, 1, "source {:?}", src);
    }
}

#[test]
fn two_character_operators_take_precedence() {
    let cases = [
        ("==", TokenType::EqualEqual),
        ("<=", TokenType::LessEqual),
        (">=", TokenType::GreaterEqual),
        ("!=", TokenType::NegEqual),
    ];
    for (src, kind) in cases.iter() {
        let toks = lex_ok(src);
        assert_eq!(toks.len(), 1, "source {:?}", src);
        assert_eq!(toks[0].kind, *kind, "source {:?}", src);
        assert!(toks[0].literal.is_none(), "source {:?}", src);
        assert_eq!(toks[0].column, 2, "source {:?}", src);
    }
}

#[test]
fn mixed_one_and_two_character_operators() {
    let toks = lex_ok("== = <= <");
    let kinds: Vec<TokenType> = toks.iter().map(|t| t.kind).collect();
    assert_eq!(
        kinds,
        vec![
            TokenType::EqualEqual,
            TokenType::Equal,
            TokenType::LessEqual,
            TokenType::Less,
        ]
    );
}

#[test]
fn line_comment_contributes_no_tokens() {
    let toks = lex_ok("// anything\nfoo");
    assert_eq!(toks.len(), 1);
    assert_eq!(toks[0].kind, TokenType::Identifier);
    assert_eq!(toks[0].literal.as_deref(), Some("foo"));
    assert_eq!(toks[0].line, 1);
}

#[test]
fn line_comment_at_end_of_input() {
    assert!(lex_ok("// runs to the end").is_empty());
}

#[test]
fn slash_between_numbers_is_division() {
    let toks = lex_ok("5/2");
    let kinds: Vec<TokenType> = toks.iter().map(|t| t.kind).collect();
    assert_eq!(
        kinds,
        vec![TokenType::Number, TokenType::Slash, TokenType::Number]
    );
}

#[test]
fn string_literal_extracted_without_quotes() {
    let toks = lex_ok("\"hello\"");
    assert_eq!(toks.len(), 1);
    assert_eq!(toks[0].kind, TokenType::Str);
    assert_eq!(toks[0].literal.as_deref(), Some("hello"));
    assert_eq!(toks[0].line, 0);
    assert_eq!(toks[0].column, 7);
}

#[test]
fn unterminated_string_fails() {
    let e = lex_err("\"abc");
    assert_eq!(e, LexError::UnterminatedString { line: 0, column: 1 });
}

#[test]
fn unterminated_string_after_newline_fails() {
    let e = lex_err("\n\"abc");
    assert_eq!(e, LexError::UnterminatedString { line: 1, column: 2 });
}

#[test]
fn multi_line_string_tracks_lines() {
    let toks = lex_ok("\"a\nb\"c");
    assert_eq!(toks.len(), 2);
    assert_eq!(toks[0].kind, TokenType::Str);
    assert_eq!(toks[0].literal.as_deref(), Some("a\nb"));
    assert_eq!(toks[0].line, 0);
    assert_eq!(toks[1].kind, TokenType::Identifier);
    assert_eq!(toks[1].literal.as_deref(), Some("c"));
    assert_eq!(toks[1].line, 1);
}

#[test]
fn strings_between_operators() {
    let toks = lex_ok("\"s\"+\"t\"");
    assert_eq!(toks.len(), 3);
    assert_eq!(toks[0].literal.as_deref(), Some("s"));
    assert_eq!(toks[1].kind, TokenType::Plus);
    assert_eq!(toks[2].literal.as_deref(), Some("t"));
}

#[test]
fn number_stops_at_boundary() {
    let toks = lex_ok("123+4");
    assert_eq!(toks.len(), 3);
    assert_eq!(toks[0].kind, TokenType::Number);
    assert_eq!(toks[0].literal.as_deref(), Some("123"));
    assert_eq!(toks[0].column, 3);
    assert_eq!(toks[1].kind, TokenType::Plus);
    assert_eq!(toks[1].column, 4);
    assert_eq!(toks[2].kind, TokenType::Number);
    assert_eq!(toks[2].literal.as_deref(), Some("4"));
    assert_eq!(toks[2].column, 5);
}

#[test]
fn number_followed_by_identifier() {
    let toks = lex_ok("1a");
    assert_eq!(toks.len(), 2);
    assert_eq!(toks[0].kind, TokenType::Number);
    assert_eq!(toks[0].literal.as_deref(), Some("1"));
    assert_eq!(toks[1].kind, TokenType::Identifier);
    assert_eq!(toks[1].literal.as_deref(), Some("a"));
}

#[test]
fn identifier_stops_at_boundary() {
    let toks = lex_ok("foo_bar1;");
    assert_eq!(toks.len(), 2);
    assert_eq!(toks[0].kind, TokenType::Identifier);
    assert_eq!(toks[0].literal.as_deref(), Some("foo_bar1"));
    assert_eq!(toks[1].kind, TokenType::SemiColon);
}

#[test]
fn identifier_may_start_with_underscore() {
    let toks = lex_ok("_tmp");
    assert_eq!(toks.len(), 1);
    assert_eq!(toks[0].kind, TokenType::Identifier);
    assert_eq!(toks[0].literal.as_deref(), Some("_tmp"));
}

#[test]
fn newline_advances_line_count() {
    let toks = lex_ok("a\nb");
    assert_eq!(toks.len(), 2);
    assert_eq!(toks[0].kind, TokenType::Identifier);
    assert_eq!(toks[1].kind, TokenType::Identifier);
    assert_eq!(toks[0].line, 0);
    assert_eq!(toks[1].line, 1);
    assert_eq!(toks[1].line - toks[0].line, 1);
}

#[test]
fn other_whitespace_is_discarded() {
    let toks = lex_ok(" \t x \r ");
    assert_eq!(toks.len(), 1);
    assert_eq!(toks[0].kind, TokenType::Identifier);
    assert_eq!(toks[0].literal.as_deref(), Some("x"));
    assert_eq!(toks[0].line, 0);
}

#[test]
fn unsupported_character_fails() {
    let e = lex_err("@");
    assert_eq!(
        e,
        LexError::UnsupportedCharacter {
            line: 0,
            column: 1,
            ch: '@'
        }
    );
}

#[test]
fn unsupported_character_position_is_reported() {
    let e = lex_err("ab #");
    assert_eq!(
        e,
        LexError::UnsupportedCharacter {
            line: 0,
            column: 4,
            ch: '#'
        }
    );
}

#[test]
fn tokens_appear_in_source_order() {
    let toks = lex_ok("(count >= 10) { count = count - 1; }");
    let kinds: Vec<TokenType> = toks.iter().map(|t| t.kind).collect();
    assert_eq!(
        kinds,
        vec![
            TokenType::LeftParen,
            TokenType::Identifier,
            TokenType::GreaterEqual,
            TokenType::Number,
            TokenType::RightParen,
            TokenType::LeftBrace,
            TokenType::Identifier,
            TokenType::Equal,
            TokenType::Identifier,
            TokenType::Minus,
            TokenType::Number,
            TokenType::SemiColon,
            TokenType::RightBrace,
        ]
    );
}

#[test]
fn peek_and_match_char() {
    let mut s = Scanner::new("ab");
    assert_eq!(s.peek(), Some('a'));
    assert!(!s.match_char('b'));
    assert_eq!(s.peek(), Some('a'));
    assert!(s.match_char('a'));
    assert_eq!(s.peek(), Some('b'));
    assert!(s.match_char('b'));
    assert_eq!(s.peek(), None);
    assert!(!s.match_char('a'));
}
