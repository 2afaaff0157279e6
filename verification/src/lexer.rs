//! Lexical analysis: source text in, a sequence of classified tokens out.
//!
//! `spec_tokenize` is the mathematical description of the scan; the
//! executable `Lexer` is proved to agree with it exactly, including which
//! inputs are rejected with a syntax error.

use vstd::prelude::*;
use vstd::string::StrSliceExecFns;
use vstd::string::StringExecFns;

pub mod predicates;

use predicates::{
    is_alphabetic, is_digit, is_operator, is_parens, is_whitespace, spec_is_alphabetic,
    spec_is_digit, spec_is_operator, spec_is_parens, spec_is_whitespace,
};

verus! {

/// The four binary arithmetic operators.
#[derive(Debug, PartialEq, Clone, Copy)]
pub enum Sign {
    Plus,
    Minus,
    Mult,
    Div,
}

/// The operator family a token belongs to.
#[derive(Debug, PartialEq, Clone, Copy)]
pub enum OperatorKind {
    Aritmethic(Sign),
}

/// The classification of a token.
#[derive(Debug, PartialEq, Clone, Copy)]
pub enum TokenKind {
    Integer,
    Operator(OperatorKind),
    RightParens,
    LeftParens,
    Identifier,
}

/// A terminal error value carrying a human-readable message.
#[derive(Debug, PartialEq)]
pub struct SyntaxError {
    pub message: String,
}

impl View for SyntaxError {
    type V = Seq<char>;

    open spec fn view(&self) -> Seq<char> {
        self.message@
    }
}

/// The mathematical value of a token: its kind and the source characters
/// it was derived from.
pub ghost struct TokenView {
    pub kind: TokenKind,
    pub literal: Seq<char>,
}

/// A classified lexical unit together with the exact source substring it
/// was derived from.
#[derive(Debug, PartialEq, Clone)]
pub struct Token {
    kind: TokenKind,
    literal: String,
}

impl View for Token {
    type V = TokenView;

    closed spec fn view(&self) -> TokenView {
        TokenView { kind: self.kind, literal: self.literal@ }
    }
}

impl DeepView for Token {
    type V = TokenView;

    open spec fn deep_view(&self) -> TokenView {
        self.view()
    }
}

impl Token {
    pub fn new(kind: TokenKind, literal: String) -> (r: Self)
        ensures
            r@ == (TokenView { kind: kind, literal: literal@ }),
    {
        Self { kind, literal }
    }

    pub fn get_kind(&self) -> (r: &TokenKind)
        ensures
            *r == self@.kind,
    {
        &self.kind
    }

    pub fn get_literal(&self) -> (r: &String)
        ensures
            r@ == self@.literal,
    {
        &self.literal
    }
}

/// The sign a single operator character denotes.
pub open spec fn sign_of_char(c: char) -> Sign {
    if c == '+' {
        Sign::Plus
    } else if c == '-' {
        Sign::Minus
    } else if c == '*' {
        Sign::Mult
    } else {
        Sign::Div
    }
}

/// The message reported for a character outside the language's alphabet.
pub open spec fn msg_invalid_character() -> Seq<char> {
    "Invalid character"@
}

/// Length of the maximal run of decimal digits starting at `i`.
pub open spec fn digit_run(s: Seq<char>, i: int) -> int
    decreases s.len() - i,
{
    if i < 0 || s.len() <= i || !spec_is_digit(s[i]) {
        0
    } else {
        1 + digit_run(s, i + 1)
    }
}

/// Length of the maximal run of letters starting at `i`.
pub open spec fn alpha_run(s: Seq<char>, i: int) -> int
    decreases s.len() - i,
{
    if i < 0 || s.len() <= i || !spec_is_alphabetic(s[i]) {
        0
    } else {
        1 + alpha_run(s, i + 1)
    }
}

pub proof fn lemma_digit_run_bounds(s: Seq<char>, i: int)
    requires
        0 <= i <= s.len(),
    ensures
        0 <= digit_run(s, i),
        i + digit_run(s, i) <= s.len(),
    decreases s.len() - i,
{
    if i < s.len() && spec_is_digit(s[i]) {
        lemma_digit_run_bounds(s, i + 1);
    }
}

pub proof fn lemma_alpha_run_bounds(s: Seq<char>, i: int)
    requires
        0 <= i <= s.len(),
    ensures
        0 <= alpha_run(s, i),
        i + alpha_run(s, i) <= s.len(),
    decreases s.len() - i,
{
    if i < s.len() && spec_is_alphabetic(s[i]) {
        lemma_alpha_run_bounds(s, i + 1);
    }
}

/// A maximal digit run is delimited by the first non-digit (or the end).
pub proof fn lemma_digit_run_extent(s: Seq<char>, i: int, p: int)
    requires
        0 <= i <= p <= s.len(),
        forall|j: int| i <= j < p ==> spec_is_digit(#[trigger] s[j]),
        p == s.len() || !spec_is_digit(s[p]),
    ensures
        digit_run(s, i) == p - i,
    decreases p - i,
{
    if i < p {
        lemma_digit_run_extent(s, i + 1, p);
    }
}

/// Prepends a token to the result of tokenizing the rest of the input;
/// an error in the rest stays an error.
pub open spec fn tok_prepend(t: TokenView, rest: Result<Seq<TokenView>, Seq<char>>) -> Result<
    Seq<TokenView>,
    Seq<char>,
> {
    match rest {
        Ok(ts) => Ok(seq![t] + ts),
        Err(m) => Err(m),
    }
}

/// The tokens already emitted, followed by whatever the rest of the scan
/// produces.
pub open spec fn tok_concat(done: Seq<TokenView>, rest: Result<Seq<TokenView>, Seq<char>>) -> Result<
    Seq<TokenView>,
    Seq<char>,
> {
    match rest {
        Ok(ts) => Ok(done + ts),
        Err(m) => Err(m),
    }
}

/// The scan of `s` from position `i` on: classify the current character,
/// emit a token (or skip a space), and continue behind it.  A character in
/// no class stops the scan with an error.
pub open spec fn spec_tokenize(s: Seq<char>, i: int) -> Result<Seq<TokenView>, Seq<char>>
    decreases s.len() - i,
        via spec_tokenize_dec
{
    if i < 0 || s.len() <= i {
        Ok(Seq::empty())
    } else {
        let c = s[i];
        if spec_is_digit(c) {
            let n = digit_run(s, i);
            tok_prepend(
                TokenView { kind: TokenKind::Integer, literal: s.subrange(i, i + n) },
                spec_tokenize(s, i + n),
            )
        } else if spec_is_operator(c) {
            tok_prepend(
                TokenView {
                    kind: TokenKind::Operator(OperatorKind::Aritmethic(sign_of_char(c))),
                    literal: seq![c],
                },
                spec_tokenize(s, i + 1),
            )
        } else if spec_is_parens(c) {
            tok_prepend(
                TokenView {
                    kind: if c == '(' {
                        TokenKind::LeftParens
                    } else {
                        TokenKind::RightParens
                    },
                    literal: seq![c],
                },
                spec_tokenize(s, i + 1),
            )
        } else if spec_is_whitespace(c) {
            spec_tokenize(s, i + 1)
        } else if spec_is_alphabetic(c) {
            let n = alpha_run(s, i);
            tok_prepend(
                TokenView { kind: TokenKind::Identifier, literal: s.subrange(i, i + n) },
                spec_tokenize(s, i + n),
            )
        } else {
            Err(msg_invalid_character())
        }
    }
}

#[via_fn]
proof fn spec_tokenize_dec(s: Seq<char>, i: int) {
    if 0 <= i && i < s.len() {
        if spec_is_digit(s[i]) {
            lemma_digit_run_bounds(s, i + 1);
            assert(digit_run(s, i) == 1 + digit_run(s, i + 1));
        }
        if spec_is_alphabetic(s[i]) {
            lemma_alpha_run_bounds(s, i + 1);
            assert(alpha_run(s, i) == 1 + alpha_run(s, i + 1));
        }
    }
}

/// A cursor over the source text.  `source` holds the characters; `text`
/// holds the same characters as a string, kept so that token literals can
/// be sliced out of it.
#[derive(Debug)]
pub struct Lexer {
    source: Vec<char>,
    text: String,
    position: usize,
}

impl Lexer {
    /// The characters being scanned.
    pub closed spec fn src(&self) -> Seq<char> {
        self.source@
    }

    /// The cursor.
    pub closed spec fn pos(&self) -> int {
        self.position as int
    }

    pub closed spec fn wf(&self) -> bool {
        self.text@ == self.source@ && self.position <= self.source.len()
    }

    pub fn new(contents: String) -> (r: Self)
        ensures
            r.wf(),
            r.src() == contents@,
            r.pos() == 0,
    {
        let n: usize = contents.as_str().unicode_len();
        let mut source: Vec<char> = Vec::new();
        let mut i: usize = 0;
        while i < n
            invariant
                n == contents@.len(),
                i <= n,
                source@ == contents@.take(i as int),
            decreases n - i,
        {
            let c = contents.as_str().get_char(i);
            source.push(c);
            proof {
                assert(contents@.take(i + 1) =~= contents@.take(i as int).push(contents@[i as int]));
            }
            i = i + 1;
        }
        proof {
            assert(contents@.take(n as int) =~= contents@);
        }
        Self { source, text: contents, position: 0 }
    }

    /// The source substring between two character positions.
    fn literal_from(&self, from: usize, to: usize) -> (r: String)
        requires
            self.wf(),
            from <= to <= self.src().len(),
        ensures
            r@ == self.src().subrange(from as int, to as int),
    {
        self.text.as_str().substring_char(from, to).to_owned()
    }

    /// Consumes the maximal run of digits at the cursor and returns it.
    pub fn parse_number(&mut self) -> (r: String)
        requires
            old(self).wf(),
        ensures
            final(self).wf(),
            final(self).src() == old(self).src(),
            final(self).pos() == old(self).pos() + digit_run(old(self).src(), old(self).pos()),
            r@ == old(self).src().subrange(old(self).pos(), final(self).pos()),
    {
        let start: usize = self.position;
        while self.position < self.source.len() && is_digit(self.source[self.position])
            invariant
                self.wf(),
                self.src() == old(self).src(),
                self.text == old(self).text,
                start <= self.position,
                digit_run(self.src(), start as int) == self.pos() - start + digit_run(
                    self.src(),
                    self.pos(),
                ),
            decreases self.source.len() - self.position,
        {
            self.position = self.position + 1;
        }
        self.literal_from(start, self.position)
    }

    /// Consumes a single parenthesis at the cursor and classifies it.
    pub fn parse_parens(&mut self) -> (r: TokenKind)
        requires
            old(self).wf(),
            old(self).pos() < old(self).src().len(),
            spec_is_parens(old(self).src()[old(self).pos()]),
        ensures
            final(self).wf(),
            final(self).src() == old(self).src(),
            final(self).pos() == old(self).pos() + 1,
            r == (if old(self).src()[old(self).pos()] == '(' {
                TokenKind::LeftParens
            } else {
                TokenKind::RightParens
            }),
    {
        let c = self.source[self.position];
        self.position = self.position + 1;
        if c == '(' {
            TokenKind::LeftParens
        } else {
            TokenKind::RightParens
        }
    }

    /// Consumes a single operator character at the cursor and maps it to
    /// its sign.
    pub fn parse_operator(&mut self) -> (r: OperatorKind)
        requires
            old(self).wf(),
            old(self).pos() < old(self).src().len(),
            spec_is_operator(old(self).src()[old(self).pos()]),
        ensures
            final(self).wf(),
            final(self).src() == old(self).src(),
            final(self).pos() == old(self).pos() + 1,
            r == OperatorKind::Aritmethic(sign_of_char(old(self).src()[old(self).pos()])),
    {
        let c = self.source[self.position];
        self.position = self.position + 1;
        if c == '+' {
            OperatorKind::Aritmethic(Sign::Plus)
        } else if c == '*' {
            OperatorKind::Aritmethic(Sign::Mult)
        } else if c == '/' {
            OperatorKind::Aritmethic(Sign::Div)
        } else {
            OperatorKind::Aritmethic(Sign::Minus)
        }
    }

    /// Consumes the maximal run of letters at the cursor and returns it.
    pub fn parse_identifier(&mut self) -> (r: String)
        requires
            old(self).wf(),
        ensures
            final(self).wf(),
            final(self).src() == old(self).src(),
            final(self).pos() == old(self).pos() + alpha_run(old(self).src(), old(self).pos()),
            r@ == old(self).src().subrange(old(self).pos(), final(self).pos()),
    {
        let start: usize = self.position;
        while self.position < self.source.len() && is_alphabetic(self.source[self.position])
            invariant
                self.wf(),
                self.src() == old(self).src(),
                self.text == old(self).text,
                start <= self.position,
                alpha_run(self.src(), start as int) == self.pos() - start + alpha_run(
                    self.src(),
                    self.pos(),
                ),
            decreases self.source.len() - self.position,
        {
            self.position = self.position + 1;
        }
        self.literal_from(start, self.position)
    }

    /// The character at the cursor, if any.
    pub fn current_char(&self) -> (r: Option<char>)
        ensures
            r == (if self.pos() < self.src().len() {
                Some(self.src()[self.pos()])
            } else {
                None::<char>
            }),
    {
        if self.position < self.source.len() {
            Some(self.source[self.position])
        } else {
            None
        }
    }

    /// Scans the source from the cursor to the end.  Returns the token
    /// sequence that `spec_tokenize` describes, or the syntax error it
    /// describes, with the cursor left behind the consumed input.
    pub fn tokenize(&mut self) -> (r: Result<Vec<Token>, SyntaxError>)
        requires
            old(self).wf(),
        ensures
            final(self).wf(),
            final(self).src() == old(self).src(),
            match r {
                Ok(ts) => spec_tokenize(old(self).src(), old(self).pos()) == Ok::<
                    Seq<TokenView>,
                    Seq<char>,
                >(ts.deep_view()),
                Err(e) => spec_tokenize(old(self).src(), old(self).pos()) == Err::<
                    Seq<TokenView>,
                    Seq<char>,
                >(e@),
            },
    {
        let ghost s: Seq<char> = self.src();
        let ghost p0: int = self.pos();
        let mut tokens: Vec<Token> = Vec::new();
        while self.position < self.source.len()
            invariant
                self.wf(),
                self.src() == s,
                s == old(self).src(),
                p0 == old(self).pos(),
                p0 <= self.pos(),
                spec_tokenize(s, p0) == tok_concat(tokens.deep_view(), spec_tokenize(s, self.pos())),
            decreases self.source.len() - self.position,
        {
            let ghost p: int = self.pos();
            let ghost done: Seq<TokenView> = tokens.deep_view();
            let c = self.source[self.position];
            if is_digit(c) {
                let literal = self.parse_number();
                let tok = Token::new(TokenKind::Integer, literal);
                let ghost tkv: TokenView = tok@;
                tokens.push(tok);
                proof {
                    lemma_digit_run_bounds(s, p + 1);
                    assert(tokens.deep_view() =~= done.push(tkv));
                    lemma_tok_concat_step(done, tkv, spec_tokenize(s, self.pos()));
                }
            } else if is_operator(c) {
                let start: usize = self.position;
                let op_kind = self.parse_operator();
                let literal = self.literal_from(start, start + 1);
                let tok = Token::new(TokenKind::Operator(op_kind), literal);
                let ghost tkv: TokenView = tok@;
                tokens.push(tok);
                proof {
                    assert(s.subrange(p, p + 1) =~= seq![c]);
                    assert(tokens.deep_view() =~= done.push(tkv));
                    lemma_tok_concat_step(done, tkv, spec_tokenize(s, self.pos()));
                }
            } else if is_parens(c) {
                let start: usize = self.position;
                let kind = self.parse_parens();
                let literal = self.literal_from(start, start + 1);
                let tok = Token::new(kind, literal);
                let ghost tkv: TokenView = tok@;
                tokens.push(tok);
                proof {
                    assert(s.subrange(p, p + 1) =~= seq![c]);
                    assert(tokens.deep_view() =~= done.push(tkv));
                    lemma_tok_concat_step(done, tkv, spec_tokenize(s, self.pos()));
                }
            } else if is_whitespace(c) {
                self.position = self.position + 1;
            } else if is_alphabetic(c) {
                let literal = self.parse_identifier();
                let tok = Token::new(TokenKind::Identifier, literal);
                let ghost tkv: TokenView = tok@;
                tokens.push(tok);
                proof {
                    lemma_alpha_run_bounds(s, p + 1);
                    assert(tokens.deep_view() =~= done.push(tkv));
                    lemma_tok_concat_step(done, tkv, spec_tokenize(s, self.pos()));
                }
            } else {
                return Err(SyntaxError { message: String::from_str("Invalid character") });
            }
        }
        proof {
            assert(tokens.deep_view() + Seq::<TokenView>::empty() =~= tokens.deep_view());
        }
        Ok(tokens)
    }
}

/// Emitting one more token commutes with concatenation: the tokens done
/// so far plus (one token followed by the rest) is the tokens done
/// including that token, followed by the rest.
proof fn lemma_tok_concat_step(
    done: Seq<TokenView>,
    t: TokenView,
    rest: Result<Seq<TokenView>, Seq<char>>,
)
    ensures
        tok_concat(done, tok_prepend(t, rest)) == tok_concat(done.push(t), rest),
{
    match rest {
        Ok(ts) => {
            assert(done + (seq![t] + ts) =~= done.push(t) + ts);
        },
        Err(m) => {},
    }
}

/// Scans a whole source string into tokens.
pub fn tokenize(input: String) -> (r: Result<Vec<Token>, SyntaxError>)
    ensures
        match r {
            Ok(ts) => spec_tokenize(input@, 0) == Ok::<Seq<TokenView>, Seq<char>>(ts.deep_view()),
            Err(e) => spec_tokenize(input@, 0) == Err::<Seq<TokenView>, Seq<char>>(e@),
        },
{
    let mut lexer = Lexer::new(input);
    lexer.tokenize()
}

} // verus!
