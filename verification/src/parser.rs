//! Recursive-descent parsing: tokens in, one expression tree out.
//!
//! The grammar has two precedence levels, with every operator associating
//! to the right within its level:
//!
//! ```text
//! expression := term   (('+' | '-') expression)?
//! term       := atomic (('*' | '/') term)?
//! atomic     := INTEGER | '(' expression ')'
//! ```
//!
//! A parenthesized group is sliced out of the token sequence by scanning
//! for the matching `RightParens` (tracking nesting depth), and the slice
//! is parsed as a fresh expression.
//!
//! Each `spec_parse_*` function is the mathematical description of the
//! corresponding `Parser` method, and each method is proved to return
//! exactly what its description says, for every token sequence.

use vstd::prelude::*;
use vstd::string::StrSliceExecFns;
use vstd::string::StringExecFns;

use crate::eval::Node;
use crate::lexer::predicates::{digit_value, is_digit, spec_is_digit, spec_digit_value};
use crate::lexer::{OperatorKind, Sign, SyntaxError, Token, TokenKind, TokenView};

verus! {

pub open spec fn msg_invalid_integer() -> Seq<char> {
    "Invalid integer literal"@
}

pub open spec fn msg_integer_range() -> Seq<char> {
    "Integer literal out of range"@
}

pub open spec fn msg_unexpected_end() -> Seq<char> {
    "Unexpected end of input"@
}

pub open spec fn msg_expected_operator() -> Seq<char> {
    "Expected operator"@
}

pub open spec fn msg_expected_atom() -> Seq<char> {
    "Expected integer or group"@
}

pub open spec fn msg_expected_rparen() -> Seq<char> {
    "Expected RightParens"@
}

pub open spec fn msg_expected_lparen() -> Seq<char> {
    "Expected LeftParens"@
}

pub open spec fn msg_parse_error() -> Seq<char> {
    "Parse error"@
}

/// A syntax error with the given message.
fn syntax_error(m: &str) -> (e: SyntaxError)
    ensures
        e@ == m@,
{
    SyntaxError { message: String::from_str(m) }
}

/// The value of the decimal digit string `s`, read left to right starting
/// from position `i` with the value `acc` already accumulated.  A
/// non-digit character or a value beyond `i32::MAX` stops the read with
/// an error.
pub open spec fn spec_to_number_rec(s: Seq<char>, i: int, acc: int) -> Result<i32, Seq<char>>
    decreases s.len() - i,
{
    if i < 0 || s.len() <= i {
        Ok(acc as i32)
    } else if !spec_is_digit(s[i]) {
        Err(msg_invalid_integer())
    } else if acc * 10 + spec_digit_value(s[i]) > i32::MAX {
        Err(msg_integer_range())
    } else {
        spec_to_number_rec(s, i + 1, acc * 10 + spec_digit_value(s[i]))
    }
}

/// The number an integer literal denotes: its digits read left to right,
/// rejecting the empty string, non-digit characters, and values beyond
/// `i32::MAX`.
pub open spec fn spec_to_number(s: Seq<char>) -> Result<i32, Seq<char>> {
    if s.len() == 0 {
        Err(msg_invalid_integer())
    } else {
        spec_to_number_rec(s, 0, 0)
    }
}

/// Reads a decimal integer literal.
pub fn to_number(s: &str) -> (r: Result<i32, SyntaxError>)
    ensures
        match r {
            Ok(v) => spec_to_number(s@) == Ok::<i32, Seq<char>>(v),
            Err(e) => spec_to_number(s@) == Err::<i32, Seq<char>>(e@),
        },
{
    let n: usize = s.unicode_len();
    if n == 0 {
        return Err(syntax_error("Invalid integer literal"));
    }
    let mut val: u64 = 0;
    let mut i: usize = 0;
    while i < n
        invariant
            n == s@.len(),
            i <= n,
            val <= 0x7fff_ffff,
            spec_to_number_rec(s@, 0, 0) == spec_to_number_rec(s@, i as int, val as int),
        decreases n - i,
    {
        let c = s.get_char(i);
        if !is_digit(c) {
            return Err(syntax_error("Invalid integer literal"));
        }
        let d: u32 = digit_value(c);
        let next: u64 = val * 10 + (d as u64);
        if next > 0x7fff_ffff {
            return Err(syntax_error("Integer literal out of range"));
        }
        val = next;
        i = i + 1;
    }
    Ok(val as i32)
}

/// The number of tokens from position `i` up to and including the
/// `RightParens` that closes the group currently `depth` levels deep, or
/// `None` when the input ends first.
pub open spec fn group_scan(tokens: Seq<TokenView>, i: int, depth: int) -> Option<int>
    decreases tokens.len() - i,
{
    if i < 0 || tokens.len() <= i {
        None
    } else {
        match tokens[i].kind {
            TokenKind::RightParens => {
                if depth == 0 {
                    Some(1)
                } else {
                    match group_scan(tokens, i + 1, depth - 1) {
                        Some(k) => Some(1 + k),
                        None => None,
                    }
                }
            },
            TokenKind::LeftParens => {
                match group_scan(tokens, i + 1, depth + 1) {
                    Some(k) => Some(1 + k),
                    None => None,
                }
            },
            _ => {
                match group_scan(tokens, i + 1, depth) {
                    Some(k) => Some(1 + k),
                    None => None,
                }
            },
        }
    }
}

/// The slice of tokens from position `i` up to and including the matching
/// `RightParens`, together with its length; an error when no matching
/// `RightParens` exists.
pub open spec fn spec_get_group(tokens: Seq<TokenView>, i: int) -> Result<
    (int, Seq<TokenView>),
    Seq<char>,
> {
    match group_scan(tokens, i, 0) {
        None => Err(msg_expected_rparen()),
        Some(g) => {
            if 0 <= i && 0 <= g && i + g <= tokens.len() {
                Ok((g, tokens.subrange(i, i + g)))
            } else {
                Err(msg_expected_rparen())
            }
        },
    }
}

/// Walks the tokens from `idx` looking for the `RightParens` that closes
/// the group currently `depth` levels deep.
fn scan_group(tokens: &Vec<Token>, idx: usize, depth: usize) -> (r: Option<usize>)
    requires
        depth <= idx,
    ensures
        match r {
            Some(k) => group_scan(tokens.deep_view(), idx as int, depth as int) == Some(k as int)
                && 1 <= k && idx + k <= tokens@.len(),
            None => group_scan(tokens.deep_view(), idx as int, depth as int) == None::<int>,
        },
    decreases tokens@.len() - idx,
{
    if idx >= tokens.len() {
        return None;
    }
    match *tokens[idx].get_kind() {
        TokenKind::RightParens => {
            if depth == 0 {
                Some(1)
            } else {
                match scan_group(tokens, idx + 1, depth - 1) {
                    Some(k) => Some(1 + k),
                    None => None,
                }
            }
        },
        TokenKind::LeftParens => {
            match scan_group(tokens, idx + 1, depth + 1) {
                Some(k) => Some(1 + k),
                None => None,
            }
        },
        _ => {
            match scan_group(tokens, idx + 1, depth) {
                Some(k) => Some(1 + k),
                None => None,
            }
        },
    }
}

/// Copies the token slice that makes up a parenthesized group, from
/// `position` up to and including the matching `RightParens`.
fn get_group(tokens: &Vec<Token>, position: usize) -> (r: Result<(usize, Vec<Token>), SyntaxError>)
    ensures
        match r {
            Ok(p) => spec_get_group(tokens.deep_view(), position as int) == Ok::<
                (int, Seq<TokenView>),
                Seq<char>,
            >((p.0 as int, p.1.deep_view())) && 1 <= p.0 && position + p.0 <= tokens@.len(),
            Err(e) => spec_get_group(tokens.deep_view(), position as int) == Err::<
                (int, Seq<TokenView>),
                Seq<char>,
            >(e@),
        },
{
    let ghost tv: Seq<TokenView> = tokens.deep_view();
    let count: usize = match scan_group(tokens, position, 0) {
        Some(k) => k,
        None => {
            return Err(syntax_error("Expected RightParens"));
        },
    };
    let n_toks: usize = tokens.len();
    let end: usize = position + count;
    let mut slice: Vec<Token> = Vec::new();
    let mut j: usize = position;
    while j < end
        invariant
            position <= j <= end,
            end == position + count,
            end <= tokens@.len(),
            tv == tokens.deep_view(),
            slice.deep_view() == tv.subrange(position as int, j as int),
        decreases end - j,
    {
        let t = &tokens[j];
        let copy = Token::new(*t.get_kind(), t.get_literal().clone());
        slice.push(copy);
        proof {
            assert(tv.subrange(position as int, j + 1) =~= tv.subrange(position as int, j as int)
                .push(tv[j as int]));
            assert(slice.deep_view() =~= tv.subrange(position as int, j + 1));
        }
        j = j + 1;
    }
    Ok((count, slice))
}

/// Whether a token kind is one of the additive operators.
pub open spec fn spec_is_additive(k: TokenKind) -> bool {
    k == TokenKind::Operator(OperatorKind::Aritmethic(Sign::Plus)) || k == TokenKind::Operator(
        OperatorKind::Aritmethic(Sign::Minus),
    )
}

/// Whether a token kind is one of the multiplicative operators.
pub open spec fn spec_is_multiplicative(k: TokenKind) -> bool {
    k == TokenKind::Operator(OperatorKind::Aritmethic(Sign::Mult)) || k == TokenKind::Operator(
        OperatorKind::Aritmethic(Sign::Div),
    )
}

/// Whether an operator binds at the additive (lower) level.
pub open spec fn spec_is_additive_op(op: OperatorKind) -> bool {
    op == OperatorKind::Aritmethic(Sign::Plus) || op == OperatorKind::Aritmethic(Sign::Minus)
}

/// Parsing an integer leaf: the current token's literal, read as a number.
pub open spec fn spec_parse_integer(tokens: Seq<TokenView>, i: int) -> Result<(Node, int), Seq<char>> {
    if i < 0 || tokens.len() <= i {
        Err(msg_unexpected_end())
    } else {
        match spec_to_number(tokens[i].literal) {
            Ok(v) => Ok((Node::Integer(v), i + 1)),
            Err(m) => Err(m),
        }
    }
}

/// Parsing an operator: the current token, if it is an operator.
pub open spec fn spec_parse_operator(tokens: Seq<TokenView>, i: int) -> Result<
    (OperatorKind, int),
    Seq<char>,
> {
    if i < 0 || tokens.len() <= i {
        Err(msg_expected_operator())
    } else {
        match tokens[i].kind {
            TokenKind::Operator(op) => Ok((op, i + 1)),
            _ => Err(msg_expected_operator()),
        }
    }
}

/// Parsing an atomic expression: an integer leaf or a parenthesized group.
pub open spec fn spec_parse_atomic(tokens: Seq<TokenView>, i: int) -> Result<(Node, int), Seq<char>>
    decreases tokens.len() - i, 1int,
{
    if i < 0 || tokens.len() <= i {
        Err(msg_unexpected_end())
    } else {
        match tokens[i].kind {
            TokenKind::Integer => spec_parse_integer(tokens, i),
            TokenKind::LeftParens => spec_parse_group(tokens, i),
            _ => Err(msg_expected_atom()),
        }
    }
}

/// Parsing a parenthesized group: the slice up to the matching
/// `RightParens`, parsed as a fresh expression.
pub open spec fn spec_parse_group(tokens: Seq<TokenView>, i: int) -> Result<(Node, int), Seq<char>>
    decreases tokens.len() - i, 0int,
{
    if i < 0 || tokens.len() <= i || !(tokens[i].kind is LeftParens) {
        Err(msg_expected_lparen())
    } else {
        match spec_get_group(tokens, i + 1) {
            Err(m) => Err(m),
            Ok((g, slice)) => match spec_parse_expression(slice, 0) {
                Ok((node, _)) => Ok((node, i + 1 + g)),
                Err(m) => Err(m),
            },
        }
    }
}

/// Parsing a term: an atomic expression, extended on the right when a
/// multiplicative operator follows.
pub open spec fn spec_parse_term(tokens: Seq<TokenView>, i: int) -> Result<(Node, int), Seq<char>>
    decreases tokens.len() - i, 2int,
{
    match spec_parse_atomic(tokens, i) {
        Err(m) => Err(m),
        Ok((a, j)) => {
            if i < j && j < tokens.len() && spec_is_multiplicative(tokens[j].kind) {
                spec_parse_binary(tokens, j, a)
            } else {
                Ok((a, j))
            }
        },
    }
}

/// Parsing the right half of a binary expression: the operator at `i`,
/// then a right-hand side at the operator's own precedence level, wrapped
/// around the given left-hand side.
pub open spec fn spec_parse_binary(tokens: Seq<TokenView>, i: int, lhs: Node) -> Result<
    (Node, int),
    Seq<char>,
>
    decreases tokens.len() - i, 0int,
{
    match spec_parse_operator(tokens, i) {
        Err(m) => Err(m),
        Ok((op, j)) => {
            let rhs_result = if spec_is_additive_op(op) {
                spec_parse_expression(tokens, j)
            } else {
                spec_parse_term(tokens, j)
            };
            match rhs_result {
                Ok((rhs, k)) => Ok(
                    (Node::BinaryExpression { op: op, lhs: Box::new(lhs), rhs: Box::new(rhs) }, k),
                ),
                Err(m) => Err(m),
            }
        },
    }
}

/// Parsing an expression: a term, extended on the right when an additive
/// operator follows.
pub open spec fn spec_parse_expression(tokens: Seq<TokenView>, i: int) -> Result<
    (Node, int),
    Seq<char>,
>
    decreases tokens.len() - i, 3int,
{
    match spec_parse_term(tokens, i) {
        Err(m) => Err(m),
        Ok((t, j)) => {
            if i < j && j < tokens.len() && spec_is_additive(tokens[j].kind) {
                spec_parse_binary(tokens, j, t)
            } else {
                Ok((t, j))
            }
        },
    }
}

/// The outer entry point: the first token must be an integer, and the
/// whole input is then parsed as an expression.  Tokens after the parsed
/// expression are ignored.
pub open spec fn spec_parse(tokens: Seq<TokenView>, i: int) -> Result<(Node, int), Seq<char>> {
    if i < 0 || tokens.len() <= i || !(tokens[i].kind is Integer) {
        Err(msg_parse_error())
    } else {
        spec_parse_expression(tokens, i)
    }
}

/// `spec_parse`, keeping only the tree.
pub open spec fn spec_parse_value(tokens: Seq<TokenView>) -> Result<Node, Seq<char>> {
    match spec_parse(tokens, 0) {
        Ok((n, _)) => Ok(n),
        Err(m) => Err(m),
    }
}

/// A cursor over a token sequence.
#[derive(Debug)]
pub struct Parser {
    tokens: Vec<Token>,
    position: usize,
}

impl Parser {
    /// The tokens being parsed.
    pub closed spec fn toks(&self) -> Seq<TokenView> {
        self.tokens.deep_view()
    }

    /// The cursor.
    pub closed spec fn pos(&self) -> int {
        self.position as int
    }

    pub closed spec fn wf(&self) -> bool {
        self.position <= self.tokens.len()
    }

    pub fn new(tokens: Vec<Token>) -> (r: Self)
        ensures
            r.wf(),
            r.toks() == tokens.deep_view(),
            r.pos() == 0,
    {
        Self { tokens, position: 0 }
    }

    /// The kind of the next unconsumed token, if any.
    pub fn peek_kind(&self) -> (r: Option<&TokenKind>)
        ensures
            match r {
                Some(k) => self.pos() < self.toks().len() && *k == self.toks()[self.pos()].kind,
                None => self.pos() >= self.toks().len(),
            },
    {
        match self.tokens.get(self.position) {
            Some(t) => Some(t.get_kind()),
            None => None,
        }
    }

    /// Consumes a parenthesized group and returns the tree of the
    /// expression inside it.
    pub fn parse_group(&mut self) -> (r: Result<Node, SyntaxError>)
        requires
            old(self).wf(),
        ensures
            final(self).wf(),
            final(self).toks() == old(self).toks(),
            match r {
                Ok(n) => spec_parse_group(old(self).toks(), old(self).pos()) == Ok::<
                    (Node, int),
                    Seq<char>,
                >((n, final(self).pos())) && old(self).pos() < final(self).pos(),
                Err(e) => spec_parse_group(old(self).toks(), old(self).pos()) == Err::<
                    (Node, int),
                    Seq<char>,
                >(e@),
            },
        decreases self.toks().len() - self.pos(), 0int,
    {
        if self.position >= self.tokens.len() {
            return Err(syntax_error("Expected LeftParens"));
        }
        match *self.tokens[self.position].get_kind() {
            TokenKind::LeftParens => {},
            _ => {
                return Err(syntax_error("Expected LeftParens"));
            },
        }
        self.position = self.position + 1;
        let (count, slice) = match get_group(&self.tokens, self.position) {
            Ok(p) => p,
            Err(e) => {
                return Err(e);
            },
        };
        let mut inner = Parser::new(slice);
        let expression = inner.parse_expression();
        match expression {
            Ok(expr) => {
                self.position = self.position + count;
                Ok(expr)
            },
            Err(e) => Err(e),
        }
    }

    /// Consumes an integer token and returns its leaf.
    pub fn parse_integer(&mut self) -> (r: Result<Node, SyntaxError>)
        requires
            old(self).wf(),
        ensures
            final(self).wf(),
            final(self).toks() == old(self).toks(),
            match r {
                Ok(n) => spec_parse_integer(old(self).toks(), old(self).pos()) == Ok::<
                    (Node, int),
                    Seq<char>,
                >((n, final(self).pos())) && old(self).pos() < final(self).pos(),
                Err(e) => spec_parse_integer(old(self).toks(), old(self).pos()) == Err::<
                    (Node, int),
                    Seq<char>,
                >(e@),
            },
    {
        if self.position >= self.tokens.len() {
            return Err(syntax_error("Unexpected end of input"));
        }
        let num = to_number(self.tokens[self.position].get_literal().as_str());
        self.position = self.position + 1;
        match num {
            Ok(v) => Ok(Node::Integer(v)),
            Err(e) => Err(e),
        }
    }

    /// Consumes an atomic expression: an integer leaf or a group.
    pub fn parse_atomic(&mut self) -> (r: Result<Node, SyntaxError>)
        requires
            old(self).wf(),
        ensures
            final(self).wf(),
            final(self).toks() == old(self).toks(),
            match r {
                Ok(n) => spec_parse_atomic(old(self).toks(), old(self).pos()) == Ok::<
                    (Node, int),
                    Seq<char>,
                >((n, final(self).pos())) && old(self).pos() < final(self).pos(),
                Err(e) => spec_parse_atomic(old(self).toks(), old(self).pos()) == Err::<
                    (Node, int),
                    Seq<char>,
                >(e@),
            },
        decreases self.toks().len() - self.pos(), 1int,
    {
        if self.position >= self.tokens.len() {
            return Err(syntax_error("Unexpected end of input"));
        }
        match *self.tokens[self.position].get_kind() {
            TokenKind::Integer => self.parse_integer(),
            TokenKind::LeftParens => self.parse_group(),
            _ => Err(syntax_error("Expected integer or group")),
        }
    }

    /// Consumes an operator token and returns its kind.
    pub fn parse_operator(&mut self) -> (r: Result<OperatorKind, SyntaxError>)
        requires
            old(self).wf(),
        ensures
            final(self).wf(),
            final(self).toks() == old(self).toks(),
            match r {
                Ok(op) => spec_parse_operator(old(self).toks(), old(self).pos()) == Ok::<
                    (OperatorKind, int),
                    Seq<char>,
                >((op, final(self).pos())) && final(self).pos() == old(self).pos() + 1,
                Err(e) => spec_parse_operator(old(self).toks(), old(self).pos()) == Err::<
                    (OperatorKind, int),
                    Seq<char>,
                >(e@),
            },
    {
        if self.position >= self.tokens.len() {
            return Err(syntax_error("Expected operator"));
        }
        let kind = *self.tokens[self.position].get_kind();
        self.position = self.position + 1;
        match kind {
            TokenKind::Operator(op) => Ok(op),
            _ => Err(syntax_error("Expected operator")),
        }
    }

    /// Consumes the operator at the cursor and a right-hand side at the
    /// operator's precedence level, and wraps them around `lhs`.
    pub fn parse_binary_expression(&mut self, lhs: Node) -> (r: Result<Node, SyntaxError>)
        requires
            old(self).wf(),
        ensures
            final(self).wf(),
            final(self).toks() == old(self).toks(),
            match r {
                Ok(n) => spec_parse_binary(old(self).toks(), old(self).pos(), lhs) == Ok::<
                    (Node, int),
                    Seq<char>,
                >((n, final(self).pos())) && old(self).pos() < final(self).pos(),
                Err(e) => spec_parse_binary(old(self).toks(), old(self).pos(), lhs) == Err::<
                    (Node, int),
                    Seq<char>,
                >(e@),
            },
        decreases self.toks().len() - self.pos(), 0int,
    {
        let op = match self.parse_operator() {
            Ok(o) => o,
            Err(e) => {
                return Err(e);
            },
        };
        let rhs_result = match op {
            OperatorKind::Aritmethic(Sign::Plus) | OperatorKind::Aritmethic(Sign::Minus) => self
                .parse_expression(),
            _ => self.parse_term(),
        };
        match rhs_result {
            Ok(rhs) => Ok(Node::BinaryExpression { op: op, lhs: Box::new(lhs), rhs: Box::new(rhs) }),
            Err(e) => Err(e),
        }
    }

    /// Consumes a term: an atomic expression, extended when a
    /// multiplicative operator follows.
    pub fn parse_term(&mut self) -> (r: Result<Node, SyntaxError>)
        requires
            old(self).wf(),
        ensures
            final(self).wf(),
            final(self).toks() == old(self).toks(),
            match r {
                Ok(n) => spec_parse_term(old(self).toks(), old(self).pos()) == Ok::<
                    (Node, int),
                    Seq<char>,
                >((n, final(self).pos())) && old(self).pos() < final(self).pos(),
                Err(e) => spec_parse_term(old(self).toks(), old(self).pos()) == Err::<
                    (Node, int),
                    Seq<char>,
                >(e@),
            },
        decreases self.toks().len() - self.pos(), 2int,
    {
        let atom = match self.parse_atomic() {
            Ok(a) => a,
            Err(e) => {
                return Err(e);
            },
        };
        match self.peek_kind() {
            Some(TokenKind::Operator(OperatorKind::Aritmethic(Sign::Mult)))
            | Some(TokenKind::Operator(OperatorKind::Aritmethic(Sign::Div))) => self
                .parse_binary_expression(atom),
            _ => Ok(atom),
        }
    }

    /// Consumes an expression: a term, extended when an additive operator
    /// follows.
    pub fn parse_expression(&mut self) -> (r: Result<Node, SyntaxError>)
        requires
            old(self).wf(),
        ensures
            final(self).wf(),
            final(self).toks() == old(self).toks(),
            match r {
                Ok(n) => spec_parse_expression(old(self).toks(), old(self).pos()) == Ok::<
                    (Node, int),
                    Seq<char>,
                >((n, final(self).pos())) && old(self).pos() < final(self).pos(),
                Err(e) => spec_parse_expression(old(self).toks(), old(self).pos()) == Err::<
                    (Node, int),
                    Seq<char>,
                >(e@),
            },
        decreases self.toks().len() - self.pos(), 3int,
    {
        let t = match self.parse_term() {
            Ok(n) => n,
            Err(e) => {
                return Err(e);
            },
        };
        match self.peek_kind() {
            Some(TokenKind::Operator(OperatorKind::Aritmethic(Sign::Plus)))
            | Some(TokenKind::Operator(OperatorKind::Aritmethic(Sign::Minus))) => self
                .parse_binary_expression(t),
            _ => Ok(t),
        }
    }

    /// The outer entry point: checks that the input starts with an
    /// integer token, then parses an expression.
    pub fn parse(&mut self) -> (r: Result<Node, SyntaxError>)
        requires
            old(self).wf(),
        ensures
            final(self).wf(),
            final(self).toks() == old(self).toks(),
            match r {
                Ok(n) => spec_parse(old(self).toks(), old(self).pos()) == Ok::<
                    (Node, int),
                    Seq<char>,
                >((n, final(self).pos())),
                Err(e) => spec_parse(old(self).toks(), old(self).pos()) == Err::<
                    (Node, int),
                    Seq<char>,
                >(e@),
            },
    {
        if self.position >= self.tokens.len() {
            return Err(syntax_error("Parse error"));
        }
        match *self.tokens[self.position].get_kind() {
            TokenKind::Integer => self.parse_expression(),
            _ => Err(syntax_error("Parse error")),
        }
    }
}

/// The character that writes a decimal digit.
pub open spec fn spec_digit_char(d: int) -> char {
    if d == 0 {
        '0'
    } else if d == 1 {
        '1'
    } else if d == 2 {
        '2'
    } else if d == 3 {
        '3'
    } else if d == 4 {
        '4'
    } else if d == 5 {
        '5'
    } else if d == 6 {
        '6'
    } else if d == 7 {
        '7'
    } else if d == 8 {
        '8'
    } else {
        '9'
    }
}

/// The decimal numeral of a nonnegative integer, most significant digit
/// first, with no leading zeros (except for the numeral of zero itself).
pub open spec fn decimal_digits(n: int) -> Seq<char>
    recommends
        0 <= n,
    decreases n,
{
    if n <= 9 {
        seq![spec_digit_char(n)]
    } else {
        decimal_digits(n / 10).push(spec_digit_char(n % 10))
    }
}

/// A numeral is nonempty and consists of digits only.
pub proof fn lemma_decimal_digits_wf(n: int)
    requires
        0 <= n,
    ensures
        decimal_digits(n).len() >= 1,
        forall|j: int|
            0 <= j < decimal_digits(n).len() ==> spec_is_digit(#[trigger] decimal_digits(n)[j]),
    decreases n,
{
    if n > 9 {
        lemma_decimal_digits_wf(n / 10);
    }
}

/// The value of the digits of `s` from position `i` on, read left to
/// right starting from the value `acc`.
pub open spec fn digits_value(s: Seq<char>, i: int, acc: int) -> int
    decreases s.len() - i,
{
    if i < 0 || s.len() <= i {
        acc
    } else {
        digits_value(s, i + 1, acc * 10 + spec_digit_value(s[i]))
    }
}

/// Reading further digits never shrinks a nonnegative value.
proof fn lemma_digits_value_lower(s: Seq<char>, i: int, acc: int)
    requires
        0 <= acc,
    ensures
        acc <= digits_value(s, i, acc),
    decreases s.len() - i,
{
    if 0 <= i && i < s.len() {
        lemma_digits_value_lower(s, i + 1, acc * 10 + spec_digit_value(s[i]));
    }
}

/// On an all-digit tail whose value stays within `i32`, the checked read
/// succeeds and returns that value.
proof fn lemma_to_number_rec_ok(s: Seq<char>, i: int, acc: int)
    requires
        0 <= i <= s.len(),
        forall|j: int| i <= j < s.len() ==> spec_is_digit(#[trigger] s[j]),
        0 <= acc,
        digits_value(s, i, acc) <= i32::MAX,
    ensures
        spec_to_number_rec(s, i, acc) == Ok::<i32, Seq<char>>(digits_value(s, i, acc) as i32),
    decreases s.len() - i,
{
    if i < s.len() {
        let acc2 = acc * 10 + spec_digit_value(s[i]);
        lemma_digits_value_lower(s, i + 1, acc2);
        lemma_to_number_rec_ok(s, i + 1, acc2);
    }
}

/// Appending a digit multiplies the value by ten and adds the digit.
proof fn lemma_digits_value_push(s: Seq<char>, d: char, i: int, acc: int)
    requires
        0 <= i <= s.len(),
    ensures
        digits_value(s.push(d), i, acc) == digits_value(s, i, acc) * 10 + spec_digit_value(d),
    decreases s.len() - i,
{
    if i < s.len() {
        assert(s.push(d)[i] == s[i]);
        lemma_digits_value_push(s, d, i + 1, acc * 10 + spec_digit_value(s[i]));
    } else {
        assert(s.push(d)[i] == d);
        assert(digits_value(s.push(d), i + 1, acc * 10 + spec_digit_value(d)) == acc * 10
            + spec_digit_value(d));
    }
}

/// A numeral denotes the number it was written from.
pub proof fn lemma_decimal_digits_value(n: int)
    requires
        0 <= n,
    ensures
        digits_value(decimal_digits(n), 0, 0) == n,
    decreases n,
{
    if n <= 9 {
        let s = decimal_digits(n);
        assert(s == seq![spec_digit_char(n)]);
        assert(s[0] == spec_digit_char(n));
        assert(spec_digit_value(spec_digit_char(n)) == n);
        assert(digits_value(s, 1, n) == n);
        assert(digits_value(s, 0, 0) == digits_value(s, 1, 0 * 10 + spec_digit_value(s[0])));
    } else {
        lemma_decimal_digits_value(n / 10);
        lemma_digits_value_push(decimal_digits(n / 10), spec_digit_char(n % 10), 0, 0);
        assert(spec_digit_value(spec_digit_char(n % 10)) == n % 10);
        vstd::arithmetic::div_mod::lemma_fundamental_div_mod(n, 10);
    }
}

/// Round trip: reading back the numeral of any `i32`-sized nonnegative
/// integer yields that integer.
pub proof fn lemma_to_number_roundtrip(n: int)
    requires
        0 <= n <= i32::MAX,
    ensures
        spec_to_number(decimal_digits(n)) == Ok::<i32, Seq<char>>(n as i32),
{
    lemma_decimal_digits_wf(n);
    lemma_decimal_digits_value(n);
    lemma_to_number_rec_ok(decimal_digits(n), 0, 0);
}

/// An integer token with the given literal.
pub open spec fn int_token(lit: Seq<char>) -> TokenView {
    TokenView { kind: TokenKind::Integer, literal: lit }
}

/// An operator token with the given sign and literal.
pub open spec fn op_token(op: Sign, lit: Seq<char>) -> TokenView {
    TokenView { kind: TokenKind::Operator(OperatorKind::Aritmethic(op)), literal: lit }
}

/// An integer leaf.
pub open spec fn int_node(v: i32) -> Node {
    Node::Integer(v)
}

/// A binary node over two subtrees.
pub open spec fn binary_node(op: Sign, lhs: Node, rhs: Node) -> Node {
    Node::BinaryExpression {
        op: OperatorKind::Aritmethic(op),
        lhs: Box::new(lhs),
        rhs: Box::new(rhs),
    }
}

/// Law: a token sequence `A op B` parses to the single binary node
/// `A op B`, whichever of the four operators `op` is.
pub proof fn lemma_parse_binary_tokens(la: Seq<char>, lop: Seq<char>, lb: Seq<char>, a: i32, b: i32, op: Sign)
    requires
        spec_to_number(la) == Ok::<i32, Seq<char>>(a),
        spec_to_number(lb) == Ok::<i32, Seq<char>>(b),
    ensures
        spec_parse(seq![int_token(la), op_token(op, lop), int_token(lb)], 0) == Ok::<
            (Node, int),
            Seq<char>,
        >((binary_node(op, int_node(a), int_node(b)), 3)),
{
    let ts = seq![int_token(la), op_token(op, lop), int_token(lb)];
    let node = binary_node(op, int_node(a), int_node(b));
    assert(ts.len() == 3);
    assert(ts[0] == int_token(la));
    assert(ts[1] == op_token(op, lop));
    assert(ts[2] == int_token(lb));
    assert(spec_parse_integer(ts, 0) == Ok::<(Node, int), Seq<char>>((int_node(a), 1)));
    assert(spec_parse_atomic(ts, 0) == Ok::<(Node, int), Seq<char>>((int_node(a), 1)));
    assert(spec_parse_integer(ts, 2) == Ok::<(Node, int), Seq<char>>((int_node(b), 3)));
    assert(spec_parse_atomic(ts, 2) == Ok::<(Node, int), Seq<char>>((int_node(b), 3)));
    assert(spec_parse_term(ts, 2) == Ok::<(Node, int), Seq<char>>((int_node(b), 3)));
    assert(spec_parse_operator(ts, 1) == Ok::<(OperatorKind, int), Seq<char>>((
        OperatorKind::Aritmethic(op),
        2,
    )));
    if op == Sign::Mult || op == Sign::Div {
        assert(spec_is_multiplicative(ts[1].kind));
        assert(!spec_is_additive_op(OperatorKind::Aritmethic(op)));
        assert(spec_parse_binary(ts, 1, int_node(a)) == Ok::<(Node, int), Seq<char>>((node, 3)));
        assert(spec_parse_term(ts, 0) == Ok::<(Node, int), Seq<char>>((node, 3)));
        assert(spec_parse_expression(ts, 0) == Ok::<(Node, int), Seq<char>>((node, 3)));
    } else {
        assert(!spec_is_multiplicative(ts[1].kind));
        assert(spec_is_additive(ts[1].kind));
        assert(spec_is_additive_op(OperatorKind::Aritmethic(op)));
        assert(spec_parse_term(ts, 0) == Ok::<(Node, int), Seq<char>>((int_node(a), 1)));
        assert(spec_parse_expression(ts, 2) == Ok::<(Node, int), Seq<char>>((int_node(b), 3)));
        assert(spec_parse_binary(ts, 1, int_node(a)) == Ok::<(Node, int), Seq<char>>((node, 3)));
        assert(spec_parse_expression(ts, 0) == Ok::<(Node, int), Seq<char>>((node, 3)));
    }
}

/// Law (right-associativity): a chain `A op1 B op2 C` of two additive
/// operators parses as `A op1 (B op2 C)`, grouping from the right.
pub proof fn lemma_parse_additive_right_assoc(
    la: Seq<char>,
    l1: Seq<char>,
    lb: Seq<char>,
    l2: Seq<char>,
    lc: Seq<char>,
    a: i32,
    b: i32,
    c: i32,
    op1: Sign,
    op2: Sign,
)
    requires
        spec_to_number(la) == Ok::<i32, Seq<char>>(a),
        spec_to_number(lb) == Ok::<i32, Seq<char>>(b),
        spec_to_number(lc) == Ok::<i32, Seq<char>>(c),
        op1 == Sign::Plus || op1 == Sign::Minus,
        op2 == Sign::Plus || op2 == Sign::Minus,
    ensures
        spec_parse(
            seq![
                int_token(la),
                op_token(op1, l1),
                int_token(lb),
                op_token(op2, l2),
                int_token(lc),
            ],
            0,
        ) == Ok::<(Node, int), Seq<char>>((
            binary_node(op1, int_node(a), binary_node(op2, int_node(b), int_node(c))),
            5,
        )),
{
    let ts = seq![int_token(la), op_token(op1, l1), int_token(lb), op_token(op2, l2), int_token(lc)];
    let inner = binary_node(op2, int_node(b), int_node(c));
    let node = binary_node(op1, int_node(a), inner);
    assert(ts.len() == 5);
    assert(ts[0] == int_token(la));
    assert(ts[1] == op_token(op1, l1));
    assert(ts[2] == int_token(lb));
    assert(ts[3] == op_token(op2, l2));
    assert(ts[4] == int_token(lc));
    // the tail `C`
    assert(spec_parse_integer(ts, 4) == Ok::<(Node, int), Seq<char>>((int_node(c), 5)));
    assert(spec_parse_atomic(ts, 4) == Ok::<(Node, int), Seq<char>>((int_node(c), 5)));
    assert(spec_parse_term(ts, 4) == Ok::<(Node, int), Seq<char>>((int_node(c), 5)));
    assert(spec_parse_expression(ts, 4) == Ok::<(Node, int), Seq<char>>((int_node(c), 5)));
    // the tail `B op2 C`
    assert(spec_parse_integer(ts, 2) == Ok::<(Node, int), Seq<char>>((int_node(b), 3)));
    assert(spec_parse_atomic(ts, 2) == Ok::<(Node, int), Seq<char>>((int_node(b), 3)));
    assert(!spec_is_multiplicative(ts[3].kind));
    assert(spec_parse_term(ts, 2) == Ok::<(Node, int), Seq<char>>((int_node(b), 3)));
    assert(spec_parse_operator(ts, 3) == Ok::<(OperatorKind, int), Seq<char>>((
        OperatorKind::Aritmethic(op2),
        4,
    )));
    assert(spec_is_additive(ts[3].kind));
    assert(spec_is_additive_op(OperatorKind::Aritmethic(op2)));
    assert(spec_parse_binary(ts, 3, int_node(b)) == Ok::<(Node, int), Seq<char>>((inner, 5)));
    assert(spec_parse_expression(ts, 2) == Ok::<(Node, int), Seq<char>>((inner, 5)));
    // the whole chain
    assert(spec_parse_integer(ts, 0) == Ok::<(Node, int), Seq<char>>((int_node(a), 1)));
    assert(spec_parse_atomic(ts, 0) == Ok::<(Node, int), Seq<char>>((int_node(a), 1)));
    assert(!spec_is_multiplicative(ts[1].kind));
    assert(spec_parse_term(ts, 0) == Ok::<(Node, int), Seq<char>>((int_node(a), 1)));
    assert(spec_parse_operator(ts, 1) == Ok::<(OperatorKind, int), Seq<char>>((
        OperatorKind::Aritmethic(op1),
        2,
    )));
    assert(spec_is_additive(ts[1].kind));
    assert(spec_is_additive_op(OperatorKind::Aritmethic(op1)));
    assert(spec_parse_binary(ts, 1, int_node(a)) == Ok::<(Node, int), Seq<char>>((node, 5)));
    assert(spec_parse_expression(ts, 0) == Ok::<(Node, int), Seq<char>>((node, 5)));
}

/// Law (precedence): in `A op1 B op2 C` with `op1` multiplicative and
/// `op2` additive, the multiplication binds first: the chain parses as
/// `(A op1 B) op2 C`.
pub proof fn lemma_parse_precedence(
    la: Seq<char>,
    l1: Seq<char>,
    lb: Seq<char>,
    l2: Seq<char>,
    lc: Seq<char>,
    a: i32,
    b: i32,
    c: i32,
    op1: Sign,
    op2: Sign,
)
    requires
        spec_to_number(la) == Ok::<i32, Seq<char>>(a),
        spec_to_number(lb) == Ok::<i32, Seq<char>>(b),
        spec_to_number(lc) == Ok::<i32, Seq<char>>(c),
        op1 == Sign::Mult || op1 == Sign::Div,
        op2 == Sign::Plus || op2 == Sign::Minus,
    ensures
        spec_parse(
            seq![
                int_token(la),
                op_token(op1, l1),
                int_token(lb),
                op_token(op2, l2),
                int_token(lc),
            ],
            0,
        ) == Ok::<(Node, int), Seq<char>>((
            binary_node(op2, binary_node(op1, int_node(a), int_node(b)), int_node(c)),
            5,
        )),
{
    let ts = seq![int_token(la), op_token(op1, l1), int_token(lb), op_token(op2, l2), int_token(lc)];
    let inner = binary_node(op1, int_node(a), int_node(b));
    let node = binary_node(op2, inner, int_node(c));
    assert(ts.len() == 5);
    assert(ts[0] == int_token(la));
    assert(ts[1] == op_token(op1, l1));
    assert(ts[2] == int_token(lb));
    assert(ts[3] == op_token(op2, l2));
    assert(ts[4] == int_token(lc));
    // the term `A op1 B`
    assert(spec_parse_integer(ts, 0) == Ok::<(Node, int), Seq<char>>((int_node(a), 1)));
    assert(spec_parse_atomic(ts, 0) == Ok::<(Node, int), Seq<char>>((int_node(a), 1)));
    assert(spec_parse_integer(ts, 2) == Ok::<(Node, int), Seq<char>>((int_node(b), 3)));
    assert(spec_parse_atomic(ts, 2) == Ok::<(Node, int), Seq<char>>((int_node(b), 3)));
    assert(!spec_is_multiplicative(ts[3].kind));
    assert(spec_parse_term(ts, 2) == Ok::<(Node, int), Seq<char>>((int_node(b), 3)));
    assert(spec_parse_operator(ts, 1) == Ok::<(OperatorKind, int), Seq<char>>((
        OperatorKind::Aritmethic(op1),
        2,
    )));
    assert(spec_is_multiplicative(ts[1].kind));
    assert(!spec_is_additive_op(OperatorKind::Aritmethic(op1)));
    assert(spec_parse_binary(ts, 1, int_node(a)) == Ok::<(Node, int), Seq<char>>((inner, 3)));
    assert(spec_parse_term(ts, 0) == Ok::<(Node, int), Seq<char>>((inner, 3)));
    // the tail `C`
    assert(spec_parse_integer(ts, 4) == Ok::<(Node, int), Seq<char>>((int_node(c), 5)));
    assert(spec_parse_atomic(ts, 4) == Ok::<(Node, int), Seq<char>>((int_node(c), 5)));
    assert(spec_parse_term(ts, 4) == Ok::<(Node, int), Seq<char>>((int_node(c), 5)));
    assert(spec_parse_expression(ts, 4) == Ok::<(Node, int), Seq<char>>((int_node(c), 5)));
    // the whole chain
    assert(spec_is_additive(ts[3].kind));
    assert(spec_is_additive_op(OperatorKind::Aritmethic(op2)));
    assert(spec_parse_operator(ts, 3) == Ok::<(OperatorKind, int), Seq<char>>((
        OperatorKind::Aritmethic(op2),
        4,
    )));
    assert(spec_parse_binary(ts, 3, inner) == Ok::<(Node, int), Seq<char>>((node, 5)));
    assert(spec_parse_expression(ts, 0) == Ok::<(Node, int), Seq<char>>((node, 5)));
}

/// Parses a whole token sequence into an expression tree.
pub fn parse(tokens: Vec<Token>) -> (r: Result<Node, SyntaxError>)
    ensures
        match r {
            Ok(n) => spec_parse_value(tokens.deep_view()) == Ok::<Node, Seq<char>>(n),
            Err(e) => spec_parse_value(tokens.deep_view()) == Err::<Node, Seq<char>>(e@),
        },
{
    let mut parser = Parser::new(tokens);
    parser.parse()
}

} // verus!
