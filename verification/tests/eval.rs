use crudelang::eval::{ArithmeticFault, Node};
use crudelang::lexer::{Lexer, OperatorKind, Sign};
use crudelang::parser::Parser;

#[test]
fn eval_expression_nested() {
    assert_eq!(
        Node::BinaryExpression {
            lhs: Box::new(Node::Integer(2)),
            op: OperatorKind::Aritmethic(Sign::Plus),
            rhs: Box::new(Node::BinaryExpression {
                lhs: Box::new(Node::Integer(2)),
                op: OperatorKind::Aritmethic(Sign::Minus),
                rhs: Box::new(Node::Integer(3)),
            })
        }
        .eval()
        .unwrap(),
        2 + 2 - 3
    );
}

#[test]
fn eval_expression_add() {
    let code = "1 + 1".to_string();
    let mut lexer = Lexer::new(code);
    let tokens = lexer.tokenize().unwrap();
    let mut parser = Parser::new(tokens);
    let ns = parser.parse_expression().unwrap();
    assert_eq!(ns.eval().unwrap(), 2);
}

#[test]
fn eval_expression_sub() {
    let code = "1 - 1".to_string();
    let mut lexer = Lexer::new(code);
    let tokens = lexer.tokenize().unwrap();
    let mut parser = Parser::new(tokens);
    let ns = parser.parse_expression().unwrap();
    assert_eq!(ns.eval().unwrap(), 0);
}

#[test]
fn eval_expression_mult() {
    let code = "5 * 5".to_string();
    let mut lexer = Lexer::new(code);
    let tokens = lexer.tokenize().unwrap();
    let mut parser = Parser::new(tokens);
    let ns = parser.parse_expression().unwrap();
    assert_eq!(ns.eval().unwrap(), 25);
}

#[test]
fn eval_expression_div() {
    let code = "10 / 5".to_string();
    let mut lexer = Lexer::new(code);
    let tokens = lexer.tokenize().unwrap();
    let mut parser = Parser::new(tokens);
    let ns = parser.parse_expression().unwrap();
    assert_eq!(ns.eval().unwrap(), 2);
}

#[test]
fn eval_group_p1() {
    let code = "1 + (2 + 3)".to_string();
    let mut lexer = Lexer::new(code);
    let tokens = lexer.tokenize().unwrap();
    let mut parser = Parser::new(tokens);
    let ns = parser.parse_expression().unwrap();
    assert_eq!(ns.eval().unwrap(), 6);
}

#[test]
fn eval_group_p2() {
    let code = "1 + (2 + (3 + 4))".to_string();
    let mut lexer = Lexer::new(code);
    let tokens = lexer.tokenize().unwrap();
    let mut parser = Parser::new(tokens);
    let ns = parser.parse_expression().unwrap();
    assert_eq!(ns.eval().unwrap(), 10);
}

#[test]
fn eval_group_p3() {
    let code1 = "5 * 5 + 10".to_string();
    let mut lexer1 = Lexer::new(code1);
    let tokens1 = lexer1.tokenize().unwrap();
    let mut parser1 = Parser::new(tokens1);
    let ns1 = parser1.parse_expression().unwrap();
    assert_eq!(ns1.eval().unwrap(), 35);

    let code2 = "5 * (5 + 10)".to_string();
    let mut lexer2 = Lexer::new(code2);
    let tokens2 = lexer2.tokenize().unwrap();
    let mut parser2 = Parser::new(tokens2);
    let ns2 = parser2.parse_expression().unwrap();
    assert_eq!(ns2.eval().unwrap(), 75);
}

#[test]
fn eval_division_by_zero_faults() {
    let node = Node::BinaryExpression {
        lhs: Box::new(Node::Integer(1)),
        op: OperatorKind::Aritmethic(Sign::Div),
        rhs: Box::new(Node::Integer(0)),
    };
    assert_eq!(node.eval().unwrap_err(), ArithmeticFault::DivisionByZero);
}

#[test]
fn eval_division_truncates_toward_zero() {
    let node = Node::BinaryExpression {
        lhs: Box::new(Node::Integer(-7)),
        op: OperatorKind::Aritmethic(Sign::Div),
        rhs: Box::new(Node::Integer(2)),
    };
    assert_eq!(node.eval().unwrap(), -3);
    let node2 = Node::BinaryExpression {
        lhs: Box::new(Node::Integer(7)),
        op: OperatorKind::Aritmethic(Sign::Div),
        rhs: Box::new(Node::Integer(-2)),
    };
    assert_eq!(node2.eval().unwrap(), -3);
}

#[test]
fn eval_addition_overflow_faults() {
    let node = Node::BinaryExpression {
        lhs: Box::new(Node::Integer(i32::MAX)),
        op: OperatorKind::Aritmethic(Sign::Plus),
        rhs: Box::new(Node::Integer(1)),
    };
    assert_eq!(node.eval().unwrap_err(), ArithmeticFault::Overflow);
}

#[test]
fn eval_min_divided_by_minus_one_faults() {
    let node = Node::BinaryExpression {
        lhs: Box::new(Node::Integer(i32::MIN)),
        op: OperatorKind::Aritmethic(Sign::Div),
        rhs: Box::new(Node::Integer(-1)),
    };
    assert_eq!(node.eval().unwrap_err(), ArithmeticFault::Overflow);
}

#[test]
fn eval_left_fault_wins() {
    let node = Node::BinaryExpression {
        lhs: Box::new(Node::BinaryExpression {
            lhs: Box::new(Node::Integer(1)),
            op: OperatorKind::Aritmethic(Sign::Div),
            rhs: Box::new(Node::Integer(0)),
        }),
        op: OperatorKind::Aritmethic(Sign::Plus),
        rhs: Box::new(Node::BinaryExpression {
            lhs: Box::new(Node::Integer(i32::MAX)),
            op: OperatorKind::Aritmethic(Sign::Mult),
            rhs: Box::new(Node::Integer(2)),
        }),
    };
    assert_eq!(node.eval().unwrap_err(), ArithmeticFault::DivisionByZero);
}

#[test]
fn arithmetic_fault_messages() {
    assert_eq!(
        ArithmeticFault::DivisionByZero.message(),
        "Division by zero".to_string()
    );
    assert_eq!(
        ArithmeticFault::Overflow.message(),
        "Integer overflow".to_string()
    );
}
