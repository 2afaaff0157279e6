use vstd::prelude::*;

verus! {

/// Characters that the lexer classifies as binary arithmetic operators.
pub open spec fn spec_is_operator(c: char) -> bool {
    c == '+' || c == '-' || c == '*' || c == '/'
}

/// Characters that open or close a parenthesized group.
pub open spec fn spec_is_parens(c: char) -> bool {
    c == '(' || c == ')'
}

/// Characters that the lexer skips without emitting a token.
pub open spec fn spec_is_whitespace(c: char) -> bool {
    c == ' '
}

/// The double-quote character.
pub open spec fn spec_is_doublequote(c: char) -> bool {
    c == '"'
}

/// Decimal digits.
pub open spec fn spec_is_digit(c: char) -> bool {
    c == '0' || c == '1' || c == '2' || c == '3' || c == '4' || c == '5' || c == '6' || c == '7'
        || c == '8' || c == '9'
}

/// ASCII letters; identifiers are maximal runs of these.
pub open spec fn spec_is_alphabetic(c: char) -> bool {
    (65 <= c as u32 && c as u32 <= 90) || (97 <= c as u32 && c as u32 <= 122)
}

/// The numeric value of a decimal digit; zero for any other character.
pub open spec fn spec_digit_value(c: char) -> int {
    if c == '0' {
        0
    } else if c == '1' {
        1
    } else if c == '2' {
        2
    } else if c == '3' {
        3
    } else if c == '4' {
        4
    } else if c == '5' {
        5
    } else if c == '6' {
        6
    } else if c == '7' {
        7
    } else if c == '8' {
        8
    } else if c == '9' {
        9
    } else {
        0
    }
}

pub fn is_operator(c: char) -> (r: bool)
    ensures
        r == spec_is_operator(c),
{
    match c {
        '+' | '-' | '*' | '/' => true,
        _ => false,
    }
}

pub fn is_parens(c: char) -> (r: bool)
    ensures
        r == spec_is_parens(c),
{
    match c {
        '(' | ')' => true,
        _ => false,
    }
}

pub fn is_whitespace(c: char) -> (r: bool)
    ensures
        r == spec_is_whitespace(c),
{
    match c {
        ' ' => true,
        _ => false,
    }
}

pub fn is_doublequote(c: char) -> (r: bool)
    ensures
        r == spec_is_doublequote(c),
{
    match c {
        '"' => true,
        _ => false,
    }
}

pub fn is_digit(c: char) -> (r: bool)
    ensures
        r == spec_is_digit(c),
{
    match c {
        '0' | '1' | '2' | '3' | '4' | '5' | '6' | '7' | '8' | '9' => true,
        _ => false,
    }
}

pub fn is_alphabetic(c: char) -> (r: bool)
    ensures
        r == spec_is_alphabetic(c),
{
    let u = c as u32;
    (65 <= u && u <= 90) || (97 <= u && u <= 122)
}

pub fn digit_value(c: char) -> (r: u32)
    ensures
        r == spec_digit_value(c),
        r <= 9,
{
    match c {
        '0' => 0,
        '1' => 1,
        '2' => 2,
        '3' => 3,
        '4' => 4,
        '5' => 5,
        '6' => 6,
        '7' => 7,
        '8' => 8,
        '9' => 9,
        _ => 0,
    }
}

} // verus!
