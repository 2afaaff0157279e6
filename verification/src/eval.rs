//! Tree-walking evaluation: an expression tree in, one integer out.
//!
//! Division by zero and any result outside the `i32` range are reported
//! as an `ArithmeticFault` instead of crashing or wrapping silently.

use vstd::prelude::*;
use vstd::string::StringExecFns;

use crate::lexer::{OperatorKind, Sign};

verus! {

/// A node of the expression tree.  Every `BinaryExpression` owns both of
/// its children, so a tree is finite and acyclic by construction.
#[derive(Debug, PartialEq)]
pub enum Node {
    Integer(i32),
    BinaryExpression { op: OperatorKind, lhs: Box<Node>, rhs: Box<Node> },
}

/// The two ways arithmetic can fail at evaluation time.
#[derive(Debug, PartialEq, Clone, Copy)]
pub enum ArithmeticFault {
    DivisionByZero,
    Overflow,
}

impl ArithmeticFault {
    pub open spec fn spec_message(&self) -> Seq<char> {
        match self {
            ArithmeticFault::DivisionByZero => "Division by zero"@,
            ArithmeticFault::Overflow => "Integer overflow"@,
        }
    }

    /// A human-readable description of the fault.
    pub fn message(&self) -> (r: String)
        ensures
            r@ == self.spec_message(),
    {
        match self {
            ArithmeticFault::DivisionByZero => String::from_str("Division by zero"),
            ArithmeticFault::Overflow => String::from_str("Integer overflow"),
        }
    }
}

/// One application of a binary operator, with native `i32` semantics:
/// `+`, `-` and `*` fail on overflow, `/` truncates toward zero and fails
/// on a zero divisor (and on `i32::MIN / -1`, whose quotient overflows).
pub open spec fn spec_apply(sign: Sign, a: i32, b: i32) -> Result<i32, ArithmeticFault> {
    match sign {
        Sign::Plus => match a.checked_add(b) {
            Some(v) => Ok(v),
            None => Err(ArithmeticFault::Overflow),
        },
        Sign::Minus => match a.checked_sub(b) {
            Some(v) => Ok(v),
            None => Err(ArithmeticFault::Overflow),
        },
        Sign::Mult => match a.checked_mul(b) {
            Some(v) => Ok(v),
            None => Err(ArithmeticFault::Overflow),
        },
        Sign::Div => {
            if b == 0 {
                Err(ArithmeticFault::DivisionByZero)
            } else {
                match a.checked_div(b) {
                    Some(v) => Ok(v),
                    None => Err(ArithmeticFault::Overflow),
                }
            }
        },
    }
}

/// Structural reduction of a tree to a single integer: a leaf is its
/// value, and a binary node is its operator applied to the values of its
/// children, left child first.  The first fault encountered is the
/// result.
pub open spec fn spec_eval(n: Node) -> Result<i32, ArithmeticFault>
    decreases n,
{
    match n {
        Node::Integer(v) => Ok(v),
        Node::BinaryExpression { op: OperatorKind::Aritmethic(sign), lhs, rhs } => {
            match spec_eval(*lhs) {
                Err(f) => Err(f),
                Ok(a) => match spec_eval(*rhs) {
                    Err(f) => Err(f),
                    Ok(b) => spec_apply(sign, a, b),
                },
            }
        },
    }
}

impl Node {
    /// Reduces the tree to a single integer, exactly as `spec_eval`
    /// describes.
    pub fn eval(&self) -> (r: Result<i32, ArithmeticFault>)
        ensures
            r == spec_eval(*self),
        decreases *self,
    {
        match self {
            Node::Integer(n) => Ok(*n),
            Node::BinaryExpression { op: OperatorKind::Aritmethic(sign), lhs, rhs } => {
                let a = match lhs.eval() {
                    Ok(v) => v,
                    Err(f) => {
                        return Err(f);
                    },
                };
                let b = match rhs.eval() {
                    Ok(v) => v,
                    Err(f) => {
                        return Err(f);
                    },
                };
                match sign {
                    Sign::Plus => match a.checked_add(b) {
                        Some(v) => Ok(v),
                        None => Err(ArithmeticFault::Overflow),
                    },
                    Sign::Minus => match a.checked_sub(b) {
                        Some(v) => Ok(v),
                        None => Err(ArithmeticFault::Overflow),
                    },
                    Sign::Mult => match a.checked_mul(b) {
                        Some(v) => Ok(v),
                        None => Err(ArithmeticFault::Overflow),
                    },
                    Sign::Div => {
                        if b == 0 {
                            Err(ArithmeticFault::DivisionByZero)
                        } else {
                            match a.checked_div(b) {
                                Some(v) => Ok(v),
                                None => Err(ArithmeticFault::Overflow),
                            }
                        }
                    },
                }
            },
        }
    }
}

} // verus!
