use crudelang::lexer::predicates::{is_doublequote, is_operator, is_parens, is_whitespace};
use crudelang::lexer::{tokenize, Lexer, OperatorKind, Sign, SyntaxError, Token, TokenKind};

#[test]
fn tokenize_number() {
    let tokens = tokenize("45".to_string()).unwrap();
    assert_eq!(
        tokens.get(0).unwrap(),
        &Token::new(TokenKind::Integer, "45".to_string())
    );
}

#[test]
fn tokenize_plus() {
    let mut lexer = Lexer::new("+".to_string());
    let tokens = lexer.tokenize().unwrap();
    assert_eq!(
        tokens.get(0).unwrap(),
        &Token::new(
            TokenKind::Operator(OperatorKind::Aritmethic(Sign::Plus)),
            "+".to_string()
        )
    );
}

#[test]
fn tokenize_minus() {
    let mut lexer = Lexer::new("-".to_string());
    let tokens = lexer.tokenize().unwrap();
    assert_eq!(
        tokens.get(0).unwrap(),
        &Token::new(
            TokenKind::Operator(OperatorKind::Aritmethic(Sign::Minus)),
            "-".to_string()
        )
    );
}

#[test]
fn tokenize_syntax_error() {
    let mut lexer = Lexer::new("&".to_string());
    let tokens = lexer.tokenize();
    match tokens {
        Ok(_t) => (),
        Err(e) => assert_eq!(
            e,
            SyntaxError {
                message: "Invalid character".to_string()
            }
        ),
    };
}

#[test]
fn tokenize_identifier() {
    let mut lexer = Lexer::new("someIdentifier".to_string());
    let tokens = lexer.tokenize().unwrap();
    assert_eq!(
        tokens.get(0).unwrap(),
        &Token::new(TokenKind::Identifier, "someIdentifier".to_string())
    );
}

#[test]
fn tokenize_expression() {
    let mut lexer = Lexer::new("1 + 1".to_string());
    let tokens = lexer.tokenize().unwrap();
    assert_eq!(
        tokens.get(0).unwrap(),
        &Token::new(TokenKind::Integer, "1".to_string())
    );
    assert_eq!(
        tokens.get(1).unwrap(),
        &Token::new(
            TokenKind::Operator(OperatorKind::Aritmethic(Sign::Plus)),
            "+".to_string()
        )
    );
    assert_eq!(
        tokens.get(2).unwrap(),
        &Token::new(TokenKind::Integer, "1".to_string())
    );
}

#[test]
fn tokenize_parens() {
    let mut lexer = Lexer::new("()".to_string());
    let tokens = lexer.tokenize().unwrap();
    assert_eq!(
        tokens.get(0).unwrap(),
        &Token::new(TokenKind::LeftParens, "(".to_string())
    );
    assert_eq!(
        tokens.get(1).unwrap(),
        &Token::new(TokenKind::RightParens, ")".to_string())
    );
}

#[test]
fn tokenize_mult_and_div() {
    let tokens = tokenize("6 * 2 / 3".to_string()).unwrap();
    assert_eq!(
        tokens.get(1).unwrap(),
        &Token::new(
            TokenKind::Operator(OperatorKind::Aritmethic(Sign::Mult)),
            "*".to_string()
        )
    );
    assert_eq!(
        tokens.get(3).unwrap(),
        &Token::new(
            TokenKind::Operator(OperatorKind::Aritmethic(Sign::Div)),
            "/".to_string()
        )
    );
}

#[test]
fn tokenize_error_after_tokens() {
    let mut lexer = Lexer::new("1 + ?".to_string());
    let result = lexer.tokenize();
    assert_eq!(result.unwrap_err().message, "Invalid character".to_string());
}

#[test]
fn token_accessors() {
    let token = Token::new(TokenKind::Integer, "7".to_string());
    assert_eq!(token.get_kind(), &TokenKind::Integer);
    assert_eq!(token.get_literal(), &"7".to_string());
}

#[test]
fn lexer_current_char() {
    let lexer = Lexer::new("ab".to_string());
    assert_eq!(lexer.current_char(), Some('a'));
    let empty = Lexer::new("".to_string());
    assert_eq!(empty.current_char(), None);
}

#[test]
fn lexer_parse_number_stops_at_non_digit() {
    let mut lexer = Lexer::new("123abc".to_string());
    assert_eq!(lexer.parse_number(), "123".to_string());
    assert_eq!(lexer.parse_identifier(), "abc".to_string());
}

#[test]
fn lexer_parse_parens_and_operator() {
    let mut lexer = Lexer::new("(*".to_string());
    assert_eq!(lexer.parse_parens(), TokenKind::LeftParens);
    assert_eq!(
        lexer.parse_operator(),
        OperatorKind::Aritmethic(Sign::Mult)
    );
}

#[test]
fn predicate_is_operator() {
    assert!(is_operator('+'));
    assert!(is_operator('-'));
    assert!(is_operator('*'));
    assert!(is_operator('/'));
    assert!(!is_operator('&'));
}

#[test]
fn predicate_is_parens() {
    assert!(is_parens('('));
    assert!(is_parens(')'));
    assert!(!is_parens('['));
}

#[test]
fn predicate_is_whitespace() {
    assert!(is_whitespace(' '));
    assert!(!is_whitespace('x'));
}

#[test]
fn predicate_is_doublequote() {
    assert!(is_doublequote('"'));
    assert!(!is_doublequote('\''));
}
