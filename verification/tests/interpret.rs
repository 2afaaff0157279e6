use crudelang::eval::ArithmeticFault;
use crudelang::interpret::{interpret, InterpreterError};
use crudelang::lexer::SyntaxError;

#[test]
fn interpret_add() {
    assert_eq!(interpret("1 + 1".to_string()).unwrap(), 2);
}

#[test]
fn interpret_div() {
    assert_eq!(interpret("10 / 5".to_string()).unwrap(), 2);
}

#[test]
fn interpret_mult() {
    assert_eq!(interpret("5 * 5".to_string()).unwrap(), 25);
}

#[test]
fn interpret_sub() {
    assert_eq!(interpret("7 - 9".to_string()).unwrap(), -2);
}

#[test]
fn interpret_right_associative_chain() {
    assert_eq!(interpret("1 + 2 + 3".to_string()).unwrap(), 6);
    assert_eq!(interpret("100 - 50 - 25".to_string()).unwrap(), 75);
}

#[test]
fn interpret_grouping() {
    assert_eq!(interpret("1 + (2 + 3)".to_string()).unwrap(), 6);
    assert_eq!(interpret("1 + (2 + (3 + 4))".to_string()).unwrap(), 10);
}

#[test]
fn interpret_precedence() {
    assert_eq!(interpret("5 * 5 + 10".to_string()).unwrap(), 35);
    assert_eq!(interpret("5 * (5 + 10)".to_string()).unwrap(), 75);
    assert_eq!(interpret("10 + 6 / 2".to_string()).unwrap(), 13);
}

#[test]
fn interpret_invalid_character() {
    let result = interpret("&".to_string());
    assert_eq!(
        result.unwrap_err(),
        InterpreterError::Syntax(SyntaxError {
            message: "Invalid character".to_string()
        })
    );
}

#[test]
fn interpret_unterminated_group() {
    let result = interpret("1 + (2 + 3".to_string());
    assert_eq!(
        result.unwrap_err(),
        InterpreterError::Syntax(SyntaxError {
            message: "Expected RightParens".to_string()
        })
    );
}

#[test]
fn interpret_leading_group_rejected() {
    let result = interpret("(1 + 2".to_string());
    assert_eq!(
        result.unwrap_err(),
        InterpreterError::Syntax(SyntaxError {
            message: "Parse error".to_string()
        })
    );
}

#[test]
fn interpret_empty_input() {
    let result = interpret("".to_string());
    assert_eq!(
        result.unwrap_err(),
        InterpreterError::Syntax(SyntaxError {
            message: "Parse error".to_string()
        })
    );
}

#[test]
fn interpret_division_by_zero() {
    let result = interpret("1 / 0".to_string());
    assert_eq!(
        result.unwrap_err(),
        InterpreterError::Arithmetic(ArithmeticFault::DivisionByZero)
    );
}

#[test]
fn interpret_overflow() {
    let result = interpret("2000000000 + 2000000000".to_string());
    assert_eq!(
        result.unwrap_err(),
        InterpreterError::Arithmetic(ArithmeticFault::Overflow)
    );
}

#[test]
fn interpret_literal_out_of_range() {
    let result = interpret("9999999999".to_string());
    assert_eq!(
        result.unwrap_err(),
        InterpreterError::Syntax(SyntaxError {
            message: "Integer literal out of range".to_string()
        })
    );
}

#[test]
fn interpret_idempotent() {
    let first = interpret("5 * 5 + 10".to_string());
    let second = interpret("5 * 5 + 10".to_string());
    assert_eq!(first, second);
    let third = interpret("&".to_string());
    let fourth = interpret("&".to_string());
    assert_eq!(third, fourth);
}

#[test]
fn interpreter_error_message() {
    let err = interpret("1 / 0".to_string()).unwrap_err();
    assert_eq!(err.message(), "Division by zero".to_string());
    let err2 = interpret("&".to_string()).unwrap_err();
    assert_eq!(err2.message(), "Invalid character".to_string());
}
