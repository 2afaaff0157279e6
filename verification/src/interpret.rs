//! The front-to-back pipeline: source text is lexed, parsed and
//! evaluated, and the first error encountered is surfaced to the caller
//! behind a single error type.

use vstd::prelude::*;

use crate::eval::{spec_apply, spec_eval, ArithmeticFault, Node};
use crate::lexer::predicates::{spec_is_digit, spec_is_operator};
use crate::lexer::{
    digit_run, lemma_digit_run_extent, sign_of_char, spec_tokenize, tok_prepend, Lexer, Sign,
    SyntaxError, TokenKind, TokenView,
};
use crate::parser::{
    binary_node, decimal_digits, int_node, int_token, lemma_decimal_digits_wf,
    lemma_parse_binary_tokens, lemma_to_number_roundtrip, op_token, spec_parse, spec_parse_value,
    Parser,
};

verus! {

/// The one error type the pipeline surfaces: a syntax error from the
/// lexer or parser, or an arithmetic fault from the evaluator.
#[derive(Debug, PartialEq)]
pub enum InterpreterError {
    Syntax(SyntaxError),
    Arithmetic(ArithmeticFault),
}

/// The mathematical value of an `InterpreterError`.
pub ghost enum InterpreterErrorView {
    Syntax(Seq<char>),
    Arithmetic(ArithmeticFault),
}

impl View for InterpreterError {
    type V = InterpreterErrorView;

    open spec fn view(&self) -> InterpreterErrorView {
        match self {
            InterpreterError::Syntax(e) => InterpreterErrorView::Syntax(e.message@),
            InterpreterError::Arithmetic(f) => InterpreterErrorView::Arithmetic(*f),
        }
    }
}

impl InterpreterError {
    pub open spec fn spec_message(&self) -> Seq<char> {
        match self {
            InterpreterError::Syntax(e) => e.message@,
            InterpreterError::Arithmetic(f) => f.spec_message(),
        }
    }

    /// A human-readable description of the error.
    pub fn message(&self) -> (r: String)
        ensures
            r@ == self.spec_message(),
    {
        match self {
            InterpreterError::Syntax(e) => e.message.clone(),
            InterpreterError::Arithmetic(f) => f.message(),
        }
    }
}

/// What interpreting a source string yields: tokens from `spec_tokenize`,
/// a tree from `spec_parse_value`, an integer from `spec_eval`, or the
/// first error on the way.
pub open spec fn spec_interpret(s: Seq<char>) -> Result<i32, InterpreterErrorView> {
    match spec_tokenize(s, 0) {
        Err(m) => Err(InterpreterErrorView::Syntax(m)),
        Ok(toks) => match spec_parse_value(toks) {
            Err(m) => Err(InterpreterErrorView::Syntax(m)),
            Ok(node) => match spec_eval(node) {
                Ok(v) => Ok(v),
                Err(f) => Err(InterpreterErrorView::Arithmetic(f)),
            },
        },
    }
}

/// The character that writes an operator.
pub open spec fn sign_char(op: Sign) -> char {
    match op {
        Sign::Plus => '+',
        Sign::Minus => '-',
        Sign::Mult => '*',
        Sign::Div => '/',
    }
}

/// The source text `A op B`: two decimal numerals around an operator,
/// separated by single spaces.
pub open spec fn render_binary(a: i32, op: Sign, b: i32) -> Seq<char> {
    decimal_digits(a as int) + seq![' ', sign_char(op), ' '] + decimal_digits(b as int)
}

/// Lexing the text `A op B` yields exactly the three tokens `A`, `op`,
/// `B`.
pub proof fn lemma_tokenize_render(a: i32, op: Sign, b: i32)
    requires
        0 <= a,
        0 <= b,
    ensures
        spec_tokenize(render_binary(a, op, b), 0) == Ok::<Seq<TokenView>, Seq<char>>(
            seq![
                int_token(decimal_digits(a as int)),
                op_token(op, seq![sign_char(op)]),
                int_token(decimal_digits(b as int)),
            ],
        ),
{
    let da = decimal_digits(a as int);
    let db = decimal_digits(b as int);
    let mid = seq![' ', sign_char(op), ' '];
    let s = render_binary(a, op, b);
    lemma_decimal_digits_wf(a as int);
    lemma_decimal_digits_wf(b as int);
    let n: int = da.len() as int;
    let m: int = db.len() as int;
    assert(s == da + mid + db);
    assert(s.len() == n + 3 + m);
    assert forall|j: int| 0 <= j < n implies #[trigger] s[j] == da[j] by {
        assert((da + mid)[j] == da[j]);
    }
    assert(s[n] == ' ');
    assert(s[n + 1] == sign_char(op));
    assert(s[n + 2] == ' ');
    assert forall|j: int| 0 <= j < m implies #[trigger] s[n + 3 + j] == db[j] by {
    }
    // character classes along the text
    assert(forall|j: int| 0 <= j < n ==> spec_is_digit(#[trigger] s[j]));
    assert(!spec_is_digit(' ') && !spec_is_operator(' '));
    assert(spec_is_operator(sign_char(op)) && !spec_is_digit(sign_char(op)));
    assert(sign_of_char(sign_char(op)) == op);
    assert forall|j: int| n + 3 <= j < n + 3 + m implies spec_is_digit(#[trigger] s[j]) by {
        assert(s[j] == db[j - (n + 3)]);
    }
    // the two digit runs
    lemma_digit_run_extent(s, 0, n);
    lemma_digit_run_extent(s, n + 3, n + 3 + m);
    assert(digit_run(s, 0) == n);
    assert(digit_run(s, n + 3) == m);
    // the scan, from the end of the text backwards
    let t1 = int_token(da);
    let t2 = op_token(op, seq![sign_char(op)]);
    let t3 = int_token(db);
    assert(spec_tokenize(s, n + 3 + m) == Ok::<Seq<TokenView>, Seq<char>>(Seq::empty()));
    assert(s.subrange(n + 3, n + 3 + m) =~= db);
    assert(spec_tokenize(s, n + 3) == tok_prepend(
        (TokenView { kind: TokenKind::Integer, literal: s.subrange(n + 3, n + 3 + m) }),
        spec_tokenize(s, n + 3 + m),
    ));
    assert(spec_tokenize(s, n + 3) == Ok::<Seq<TokenView>, Seq<char>>(seq![t3] + Seq::empty()));
    assert(spec_tokenize(s, n + 2) == spec_tokenize(s, n + 3));
    assert(seq![s[n + 1]] =~= seq![sign_char(op)]);
    assert(spec_tokenize(s, n + 1) == tok_prepend(t2, spec_tokenize(s, n + 2)));
    assert(spec_tokenize(s, n + 1) == Ok::<Seq<TokenView>, Seq<char>>(
        seq![t2] + (seq![t3] + Seq::empty()),
    ));
    assert(spec_tokenize(s, n) == spec_tokenize(s, n + 1));
    assert(s.subrange(0, n) =~= da);
    assert(spec_tokenize(s, 0) == tok_prepend(
        (TokenView { kind: TokenKind::Integer, literal: s.subrange(0, n) }),
        spec_tokenize(s, n),
    ));
    assert(seq![t1] + (seq![t2] + (seq![t3] + Seq::<TokenView>::empty())) =~= seq![t1, t2, t3]);
}

/// Law: interpreting the text `A op B` computes the native result of the
/// operator.  Addition, subtraction and multiplication agree with exact
/// integer arithmetic whenever the result fits in an `i32`, and division
/// by a nonzero divisor is truncating division (the operands here are
/// nonnegative numerals, so truncating and flooring agree).
pub proof fn lemma_interpret_binary(a: i32, b: i32, op: Sign)
    requires
        0 <= a,
        0 <= b,
        op == Sign::Plus ==> a + b <= i32::MAX,
        op == Sign::Mult ==> a * b <= i32::MAX,
        op == Sign::Div ==> b != 0,
    ensures
        op == Sign::Plus ==> spec_interpret(render_binary(a, op, b)) == Ok::<
            i32,
            InterpreterErrorView,
        >((a + b) as i32),
        op == Sign::Minus ==> spec_interpret(render_binary(a, op, b)) == Ok::<
            i32,
            InterpreterErrorView,
        >((a - b) as i32),
        op == Sign::Mult ==> spec_interpret(render_binary(a, op, b)) == Ok::<
            i32,
            InterpreterErrorView,
        >((a * b) as i32),
        op == Sign::Div ==> spec_interpret(render_binary(a, op, b)) == Ok::<
            i32,
            InterpreterErrorView,
        >(((a as int) / (b as int)) as i32),
{
    let da = decimal_digits(a as int);
    let db = decimal_digits(b as int);
    let s = render_binary(a, op, b);
    lemma_tokenize_render(a, op, b);
    lemma_to_number_roundtrip(a as int);
    lemma_to_number_roundtrip(b as int);
    let ts = seq![int_token(da), op_token(op, seq![sign_char(op)]), int_token(db)];
    lemma_parse_binary_tokens(da, seq![sign_char(op)], db, a, b, op);
    let node = binary_node(op, int_node(a), int_node(b));
    assert(spec_parse(ts, 0) == Ok::<(Node, int), Seq<char>>((node, 3)));
    assert(spec_parse_value(ts) == Ok::<Node, Seq<char>>(node));
    assert(spec_eval(int_node(a)) == Ok::<i32, ArithmeticFault>(a));
    assert(spec_eval(int_node(b)) == Ok::<i32, ArithmeticFault>(b));
    assert(spec_eval(node) == spec_apply(op, a, b));
    match op {
        Sign::Plus => {
            assert(spec_apply(op, a, b) == Ok::<i32, ArithmeticFault>((a + b) as i32));
        },
        Sign::Minus => {
            assert(spec_apply(op, a, b) == Ok::<i32, ArithmeticFault>((a - b) as i32));
        },
        Sign::Mult => {
            assert(spec_apply(op, a, b) == Ok::<i32, ArithmeticFault>((a * b) as i32));
        },
        Sign::Div => {
            let q = (a as int) / (b as int);
            vstd::arithmetic::div_mod::lemma_div_pos_is_pos(a as int, b as int);
            vstd::arithmetic::div_mod::lemma_div_nonincreasing(a as int, b as int);
            assert(0 <= q <= a as int);
            assert(spec_apply(op, a, b) == Ok::<i32, ArithmeticFault>(q as i32));
        },
    }
}

/// Law: the result of interpretation is a pure function of the source
/// text.  Any two results that `interpret` may return for the same text
/// agree: same integer, or errors with the same kind and message.
pub proof fn lemma_interpret_deterministic(
    s: Seq<char>,
    r1: Result<i32, InterpreterError>,
    r2: Result<i32, InterpreterError>,
)
    requires
        (match r1 {
            Ok(v) => spec_interpret(s) == Ok::<i32, InterpreterErrorView>(v),
            Err(e) => spec_interpret(s) == Err::<i32, InterpreterErrorView>(e@),
        }),
        (match r2 {
            Ok(v) => spec_interpret(s) == Ok::<i32, InterpreterErrorView>(v),
            Err(e) => spec_interpret(s) == Err::<i32, InterpreterErrorView>(e@),
        }),
    ensures
        (match (r1, r2) {
            (Ok(v1), Ok(v2)) => v1 == v2,
            (Err(e1), Err(e2)) => e1@ == e2@,
            _ => false,
        }),
{
}

/// Runs the whole pipeline on one line of source text.  The result is a
/// pure function of the text: interpreting the same string twice yields
/// the same outcome.
pub fn interpret(code: String) -> (r: Result<i32, InterpreterError>)
    ensures
        match r {
            Ok(v) => spec_interpret(code@) == Ok::<i32, InterpreterErrorView>(v),
            Err(e) => spec_interpret(code@) == Err::<i32, InterpreterErrorView>(e@),
        },
{
    let mut lexer = Lexer::new(code);
    let tokens = match lexer.tokenize() {
        Ok(ts) => ts,
        Err(e) => {
            return Err(InterpreterError::Syntax(e));
        },
    };
    let mut parser = Parser::new(tokens);
    let ast = match parser.parse() {
        Ok(n) => n,
        Err(e) => {
            return Err(InterpreterError::Syntax(e));
        },
    };
    match ast.eval() {
        Ok(v) => Ok(v),
        Err(f) => Err(InterpreterError::Arithmetic(f)),
    }
}

} // verus!

