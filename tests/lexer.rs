use shapelang::lexer::{lex, LexerErrorType, Token, TokenType};
use shapelang::pos::{create_pos, create_range, Pos};

fn tokens(s: &str) -> Vec<Token> {
    lex(&s.to_owned()).unwrap()
}

fn kinds(s: &str) -> Vec<TokenType> {
    tokens(s).into_iter().map(|t| t.token_type).collect()
}

fn span(l0: u32, c0: u32, l1: u32, c1: u32) -> shapelang::pos::Range {
    create_range(create_pos(l0, c0), create_pos(l1, c1))
}

#[test]
fn mod_lex_identifier() {
    let ts = tokens("a1234");
    assert_eq!(ts.len(), 1);
    assert_eq!(ts[0].token_type, TokenType::Ident("a1234".to_owned()));
    assert_eq!(ts[0].token_pos, span(0, 0, 0, 5));
}

#[test]
fn mod_lex_integer() {
    let ts = tokens("10");
    assert_eq!(ts.len(), 1);
    assert_eq!(ts[0].token_type, TokenType::Number("10".to_owned()));
    assert_eq!(ts[0].token_pos, span(0, 0, 0, 2));
}

#[test]
fn mod_lex_float() {
    let ts = tokens("10.123");
    assert_eq!(ts.len(), 1);
    assert_eq!(ts[0].token_type, TokenType::Number("10.123".to_owned()));
    assert_eq!(ts[0].token_pos, span(0, 0, 0, 6));
}

#[test]
fn lex_string() {
    let ts = tokens("\"hello\"");
    assert_eq!(ts.len(), 1);
    assert_eq!(ts[0].token_type, TokenType::String("hello".to_owned()));
    assert_eq!(ts[0].token_pos, span(0, 0, 0, 7));
}

#[test]
fn lex_parens() {
    let ts = tokens("()");
    assert_eq!(kinds("()"), vec![TokenType::LParen, TokenType::RParen]);
    assert_eq!(ts[0].token_pos, span(0, 0, 0, 1));
    assert_eq!(ts[1].token_pos, span(0, 1, 0, 2));
}

#[test]
fn lex_curlies() {
    assert_eq!(kinds("{}"), vec![TokenType::LCurly, TokenType::RCurly]);
}

#[test]
fn lex_operators() {
    let ts = tokens("*/+-===");
    assert_eq!(
        kinds("*/+-==="),
        vec![
            TokenType::Times,
            TokenType::Divide,
            TokenType::Plus,
            TokenType::Minus,
            TokenType::Compare,
            TokenType::Equals,
        ]
    );
    assert_eq!(ts[4].token_pos, span(0, 4, 0, 6));
    assert_eq!(ts[5].token_pos, span(0, 6, 0, 7));
}

#[test]
fn lex_special() {
    assert_eq!(kinds(":,"), vec![TokenType::Colon, TokenType::Comma]);
}

#[test]
fn lexer_lex_identifier() {
    assert_eq!(kinds("a1234"), vec![TokenType::Ident("a1234".to_owned())]);
}

#[test]
fn lexer_lex_integer() {
    assert_eq!(kinds("10"), vec![TokenType::Number("10".to_owned())]);
}

#[test]
fn lexer_lex_float() {
    assert_eq!(kinds("10"), vec![TokenType::Number("10".to_owned())]);
    assert_eq!(kinds("10.123"), vec![TokenType::Number("10.123".to_owned())]);
}

#[test]
fn lex_trims_and_tracks_lines() {
    let ts = tokens("\n  shape\n\ta b");
    assert_eq!(ts.len(), 3);
    assert_eq!(ts[0].token_pos, span(0, 0, 0, 5));
    assert_eq!(ts[1].token_pos, span(1, 1, 1, 2));
    assert_eq!(ts[2].token_pos, span(1, 3, 1, 4));
}

#[test]
fn lex_number_takes_one_dot() {
    let err = lex(&"1.2.3".to_owned()).unwrap_err();
    assert_eq!(err.error_type, LexerErrorType::UnexpectedCharacter('.'));
    assert_eq!(err.pos, create_pos(0, 3));
}

#[test]
fn lex_unexpected_character() {
    let err = lex(&"a # b".to_owned()).unwrap_err();
    assert_eq!(err.error_type, LexerErrorType::UnexpectedCharacter('#'));
    assert_eq!(err.pos, create_pos(0, 2));
}

#[test]
fn lex_unterminated_string() {
    let err = lex(&"x \"abc".to_owned()).unwrap_err();
    assert_eq!(err.error_type, LexerErrorType::StringNeverTerminated);
    assert_eq!(err.pos, Pos { line: 0, column: 2 });
}

#[test]
fn lex_string_is_verbatim() {
    assert_eq!(kinds("\"a\\b c\""), vec![TokenType::String("a\\b c".to_owned())]);
}

#[test]
fn lex_empty_input() {
    assert_eq!(tokens("  \n ").len(), 0);
}
