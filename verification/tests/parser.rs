use crudelang::eval::Node;
use crudelang::lexer::{tokenize, OperatorKind, Sign, Token, TokenKind};
use crudelang::parser::{parse, Parser};

#[test]
fn parse_expression() {
    let tokens = tokenize("123 + 123".to_string()).unwrap();
    let mut parser = Parser::new(tokens);
    assert_eq!(
        parser.parse_expression().unwrap(),
        Node::BinaryExpression {
            lhs: Box::new(Node::Integer(123)),
            op: OperatorKind::Aritmethic(Sign::Plus),
            rhs: Box::new(Node::Integer(123))
        }
    );
}

#[test]
fn parse_expression_nested() {
    let tokens = tokenize("1 + 2 + 3".to_string()).unwrap();
    let mut parser = Parser::new(tokens);
    assert_eq!(
        parser.parse_expression().unwrap(),
        Node::BinaryExpression {
            lhs: Box::new(Node::Integer(1)),
            op: OperatorKind::Aritmethic(Sign::Plus),
            rhs: Box::new(Node::BinaryExpression {
                lhs: Box::new(Node::Integer(2)),
                op: OperatorKind::Aritmethic(Sign::Plus),
                rhs: Box::new(Node::Integer(3)),
            })
        }
    );
}

#[test]
fn parse_grouped_expression_nested() {
    let tokens = tokenize("1 + (4 - 5)".to_string()).unwrap();
    let mut parser = Parser::new(tokens);
    assert_eq!(
        parser.parse_expression().unwrap(),
        Node::BinaryExpression {
            lhs: Box::new(Node::Integer(1)),
            op: OperatorKind::Aritmethic(Sign::Plus),
            rhs: Box::new(Node::BinaryExpression {
                lhs: Box::new(Node::Integer(4)),
                op: OperatorKind::Aritmethic(Sign::Minus),
                rhs: Box::new(Node::Integer(5)),
            })
        }
    );
}

#[test]
fn parse_precedence_tree() {
    let tokens = tokenize("5 * 5 + 10".to_string()).unwrap();
    let mut parser = Parser::new(tokens);
    assert_eq!(
        parser.parse_expression().unwrap(),
        Node::BinaryExpression {
            lhs: Box::new(Node::BinaryExpression {
                lhs: Box::new(Node::Integer(5)),
                op: OperatorKind::Aritmethic(Sign::Mult),
                rhs: Box::new(Node::Integer(5)),
            }),
            op: OperatorKind::Aritmethic(Sign::Plus),
            rhs: Box::new(Node::Integer(10)),
        }
    );
}

#[test]
fn parse_rejects_leading_parenthesis() {
    let tokens = tokenize("(1 + 2) + 3".to_string()).unwrap();
    let result = parse(tokens);
    assert_eq!(result.unwrap_err().message, "Parse error".to_string());
}

#[test]
fn parse_rejects_empty_input() {
    let tokens = tokenize("".to_string()).unwrap();
    let result = parse(tokens);
    assert_eq!(result.unwrap_err().message, "Parse error".to_string());
}

#[test]
fn parse_rejects_identifier() {
    let tokens = tokenize("a + 1".to_string()).unwrap();
    let result = parse(tokens);
    assert_eq!(result.unwrap_err().message, "Parse error".to_string());
}

#[test]
fn parse_group_unterminated() {
    let tokens = tokenize("1 + (2".to_string()).unwrap();
    let mut parser = Parser::new(tokens);
    let result = parser.parse_expression();
    assert_eq!(
        result.unwrap_err().message,
        "Expected RightParens".to_string()
    );
}

#[test]
fn parse_operator_missing_rhs() {
    let tokens = tokenize("1 +".to_string()).unwrap();
    let mut parser = Parser::new(tokens);
    let result = parser.parse_expression();
    assert_eq!(
        result.unwrap_err().message,
        "Unexpected end of input".to_string()
    );
}

#[test]
fn parse_integer_rejects_non_numeric_literal() {
    let tokens = vec![Token::new(TokenKind::Integer, "abc".to_string())];
    let mut parser = Parser::new(tokens);
    let result = parser.parse_integer();
    assert_eq!(
        result.unwrap_err().message,
        "Invalid integer literal".to_string()
    );
}

#[test]
fn parse_integer_rejects_huge_literal() {
    let tokens = vec![Token::new(TokenKind::Integer, "9999999999".to_string())];
    let mut parser = Parser::new(tokens);
    let result = parser.parse_integer();
    assert_eq!(
        result.unwrap_err().message,
        "Integer literal out of range".to_string()
    );
}

#[test]
fn parse_integer_accepts_i32_max() {
    let tokens = vec![Token::new(TokenKind::Integer, "2147483647".to_string())];
    let mut parser = Parser::new(tokens);
    assert_eq!(parser.parse_integer().unwrap(), Node::Integer(2147483647));
}

#[test]
fn parser_peek_kind() {
    let tokens = tokenize("1 + 2".to_string()).unwrap();
    let parser = Parser::new(tokens);
    assert_eq!(parser.peek_kind(), Some(&TokenKind::Integer));
    let empty = Parser::new(Vec::new());
    assert_eq!(empty.peek_kind(), None);
}

#[test]
fn parse_operator_rejects_integer_token() {
    let tokens = tokenize("1".to_string()).unwrap();
    let mut parser = Parser::new(tokens);
    let result = parser.parse_operator();
    assert_eq!(result.unwrap_err().message, "Expected operator".to_string());
}
