//! The expression lexer and the recursive-descent expression parser.
//!
//! This lexer knows fewer tokens than `super::lexer`: strings are quoted with
//! `'` only, there are no comments, and its keywords are `true`, `false`,
//! `null`, `and`, `or`, `not`, `try`, `catch`, `finally` and `throw`.
use vstd::prelude::*;
use crate::error::DataCodeError;
use crate::text::{alphabetic, ascii_digit, is_alpha, is_digit};
use crate::value::{Value, ValueView};
use super::ast::{Expr, ExprView, views, lemma_views_push};
use super::lexer as base;
use super::lexer::{blank, ident_char, number_char, quoted, run_end, with_eq, lemma_run_end_bounds};
use super::tokens::{BinaryOp, Token, TokenView, UnaryOp, kind_of};
use super::messages::{expected_message, unexpected_message};

verus! {

/// The token that a word stands for in an expression.
pub open spec fn expression_word(w: Seq<char>) -> TokenView {
    if w == seq!['t', 'r', 'u', 'e'] {
        TokenView::Bool(true)
    } else if w == seq!['f', 'a', 'l', 's', 'e'] {
        TokenView::Bool(false)
    } else if w == seq!['n', 'u', 'l', 'l'] {
        TokenView::Null
    } else if w == seq!['a', 'n', 'd'] {
        TokenView::And
    } else if w == seq!['o', 'r'] {
        TokenView::Or
    } else if w == seq!['n', 'o', 't'] {
        TokenView::Not
    } else if w == seq!['t', 'r', 'y'] {
        TokenView::Try
    } else if w == seq!['c', 'a', 't', 'c', 'h'] {
        TokenView::Catch
    } else if w == seq!['f', 'i', 'n', 'a', 'l', 'l', 'y'] {
        TokenView::Finally
    } else if w == seq!['t', 'h', 'r', 'o', 'w'] {
        TokenView::Throw
    } else {
        TokenView::Identifier(w)
    }
}

/// The token that starts at or after index `p` of `s` for the expression
/// lexer, and the index just after it. Whitespace other than line feeds and
/// characters that begin no token are skipped; at the end of the input the
/// token is `EOF` and the index stays.
pub open spec fn lex_expr(s: Seq<char>, p: int) -> (TokenView, int)
    decreases s.len() - p,
{
    if p < 0 || p >= s.len() {
        (TokenView::EOF, p)
    } else {
        let c = s[p];
        if c == ' ' || c == '\t' || c == '\r' {
            proof { lemma_run_end_bounds(s, p, |c: char| blank(c)); }
            lex_expr(s, run_end(s, p, |c: char| blank(c)))
        } else if c == '\n' {
            (TokenView::Newline, p + 1)
        } else if c == '\'' {
            quoted(s, p, '\'')
        } else if is_digit(c) {
            let e = run_end(s, p, |c: char| number_char(c));
            (TokenView::Number(s.subrange(p, e)), e)
        } else if is_alpha(c) || c == '_' {
            let e = run_end(s, p, |c: char| ident_char(c));
            (expression_word(s.subrange(p, e)), e)
        } else if c == '+' {
            (TokenView::Plus, p + 1)
        } else if c == '-' {
            (TokenView::Minus, p + 1)
        } else if c == '*' {
            (TokenView::Multiply, p + 1)
        } else if c == '/' {
            (TokenView::Divide, p + 1)
        } else if c == '=' {
            with_eq(s, p, TokenView::Assign, TokenView::Equal)
        } else if c == '!' {
            with_eq(s, p, TokenView::Not, TokenView::NotEqual)
        } else if c == '<' {
            with_eq(s, p, TokenView::Less, TokenView::LessEqual)
        } else if c == '>' {
            with_eq(s, p, TokenView::Greater, TokenView::GreaterEqual)
        } else if c == '(' {
            (TokenView::LeftParen, p + 1)
        } else if c == ')' {
            (TokenView::RightParen, p + 1)
        } else if c == '[' {
            (TokenView::LeftBracket, p + 1)
        } else if c == ']' {
            (TokenView::RightBracket, p + 1)
        } else if c == ',' {
            (TokenView::Comma, p + 1)
        } else if c == '.' {
            (TokenView::Dot, p + 1)
        } else {
            lex_expr(s, p + 1)
        }
    }
}

/// `lex_expr` moves forward, stays within the input, and moves by at least
/// one character when it finds a token other than `EOF`.
pub proof fn lemma_lex_expr_progress(s: Seq<char>, p: int)
    requires
        0 <= p <= s.len(),
    ensures
        p <= lex_expr(s, p).1 <= s.len(),
        !(lex_expr(s, p).0 is EOF) ==> lex_expr(s, p).1 > p,
    decreases s.len() - p,
{
    if p < s.len() {
        let c = s[p];
        if c == ' ' || c == '\t' || c == '\r' {
            lemma_run_end_bounds(s, p, |c: char| blank(c));
            lemma_lex_expr_progress(s, run_end(s, p, |c: char| blank(c)));
        } else if c == '\n' {
        } else if c == '\'' {
            lemma_run_end_bounds(s, p + 1, super::lexer::not_char('\''));
        } else if is_digit(c) {
            lemma_run_end_bounds(s, p, |c: char| number_char(c));
        } else if is_alpha(c) || c == '_' {
            lemma_run_end_bounds(s, p, |c: char| ident_char(c));
        } else if c == '+' || c == '-' || c == '*' || c == '/' || c == '=' || c == '!' || c == '<'
            || c == '>' || c == '(' || c == ')' || c == '[' || c == ']' || c == ',' || c == '.' {
        } else {
            lemma_lex_expr_progress(s, p + 1);
        }
    }
}


/// Where the parser stands: its current token, and the lexer's position
/// just after that token.
pub struct PState {
    pub tok: TokenView,
    pub pos: int,
}

/// The state of a parser just created on `s`.
pub open spec fn start_state(s: Seq<char>) -> PState {
    PState { tok: lex_expr(s, 0).0, pos: lex_expr(s, 0).1 }
}

/// The state after moving to the next token.
pub open spec fn adv(s: Seq<char>, st: PState) -> PState {
    PState { tok: lex_expr(s, st.pos).0, pos: lex_expr(s, st.pos).1 }
}

/// The position lies within the input.
pub open spec fn good(s: Seq<char>, st: PState) -> bool {
    0 <= st.pos <= s.len()
}

/// A measure of the input left to parse: it falls with each token consumed.
pub open spec fn measure(s: Seq<char>, st: PState) -> nat {
    (if good(s, st) { 2 * (s.len() - st.pos) } else { 0int }) as nat + (if st.tok is EOF { 0nat } else { 1nat })
}

/// Consuming a token other than `EOF` lowers the measure.
pub proof fn lemma_adv(s: Seq<char>, st: PState)
    requires
        good(s, st),
        !(st.tok is EOF),
    ensures
        good(s, adv(s, st)),
        measure(s, adv(s, st)) < measure(s, st),
{
    lemma_lex_expr_progress(s, st.pos);
}

/// The binary operator that a token stands for at a precedence level:
/// 6 `or`; 5 `and`; 4 `==`, `!=`; 3 `<`, `>`, `<=`, `>=`; 2 `+`, `-`, `/`;
/// 1 `*`, `/`.
pub open spec fn op_at(k: nat, t: TokenView) -> Option<BinaryOp> {
    if k == 6 && t is Or {
        Some(BinaryOp::Or)
    } else if k == 5 && t is And {
        Some(BinaryOp::And)
    } else if k == 4 && t is Equal {
        Some(BinaryOp::Equal)
    } else if k == 4 && t is NotEqual {
        Some(BinaryOp::NotEqual)
    } else if k == 3 && t is Less {
        Some(BinaryOp::Less)
    } else if k == 3 && t is Greater {
        Some(BinaryOp::Greater)
    } else if k == 3 && t is LessEqual {
        Some(BinaryOp::LessEqual)
    } else if k == 3 && t is GreaterEqual {
        Some(BinaryOp::GreaterEqual)
    } else if k == 2 && t is Plus {
        Some(BinaryOp::Add)
    } else if k == 2 && t is Minus {
        Some(BinaryOp::Subtract)
    } else if (k == 2 || k == 1) && t is Divide {
        Some(BinaryOp::Divide)
    } else if k == 1 && t is Multiply {
        Some(BinaryOp::Multiply)
    } else {
        None
    }
}

/// A parse of an expression at precedence level `k` (1 to 6): operands of
/// the next level down (unary expressions below level 1) joined left to right
/// by the operators of level `k`. `None` is a syntax error.
pub open spec fn p_level(s: Seq<char>, st: PState, k: nat) -> Option<(ExprView, PState)>
    decreases measure(s, st), 2 * k + 1,
{
    if k == 0 || k > 6 {
        None
    } else {
        let left = if k == 1 { p_unary(s, st) } else { p_level(s, st, (k - 1) as nat) };
        match left {
            None => None,
            Some((l, st2)) => if measure(s, st2) <= measure(s, st) {
                level_rest(s, st2, k, l)
            } else {
                None
            },
        }
    }
}

/// The rest of a level-`k` expression whose left operand `l` is parsed.
pub open spec fn level_rest(s: Seq<char>, st: PState, k: nat, l: ExprView) -> Option<(ExprView, PState)>
    decreases measure(s, st), 2 * k,
{
    if !good(s, st) || k == 0 || k > 6 {
        None
    } else {
        match op_at(k, st.tok) {
            None => Some((l, st)),
            Some(op) => {
                let st1 = adv(s, st);
                proof { lemma_adv(s, st); }
                let right = if k == 1 { p_unary(s, st1) } else { p_level(s, st1, (k - 1) as nat) };
                match right {
                    None => None,
                    Some((r, st2)) => if measure(s, st2) <= measure(s, st1) {
                        level_rest(s, st2, k, ExprView::Binary(Box::new(l), op, Box::new(r)))
                    } else {
                        None
                    },
                }
            },
        }
    }
}

/// A unary expression: `not` or `-` before a unary expression, or a primary one.
pub open spec fn p_unary(s: Seq<char>, st: PState) -> Option<(ExprView, PState)>
    decreases measure(s, st), 1nat,
{
    if !good(s, st) {
        None
    } else if st.tok is Not || st.tok is Minus {
        let op = if st.tok is Not { UnaryOp::Not } else { UnaryOp::Minus };
        proof { lemma_adv(s, st); }
        match p_unary(s, adv(s, st)) {
            None => None,
            Some((e, st2)) => Some((ExprView::Unary(op, Box::new(e)), st2)),
        }
    } else {
        p_primary(s, st)
    }
}

/// The state after the expected token, if the current token is of its kind.
pub open spec fn expect(s: Seq<char>, st: PState, kind: TokenView) -> Option<PState> {
    if kind_of(st.tok) == kind_of(kind) {
        Some(adv(s, st))
    } else {
        None
    }
}

/// A primary expression: a literal; a name, or a call `name(args)`, either
/// followed by any number of `[index]`; `(expr)`; an array `[a, b, ...]`
/// with an optional trailing comma; or `throw expr`.
pub open spec fn p_primary(s: Seq<char>, st: PState) -> Option<(ExprView, PState)>
    decreases measure(s, st), 0nat,
{
    if !good(s, st) {
        None
    } else {
        match st.tok {
            TokenView::String(t) => Some((ExprView::Literal(ValueView::String(t)), adv(s, st))),
            TokenView::Number(t) => Some((ExprView::Literal(ValueView::Number(t)), adv(s, st))),
            TokenView::Bool(b) => Some((ExprView::Literal(ValueView::Bool(b)), adv(s, st))),
            TokenView::Null => Some((ExprView::Literal(ValueView::Null), adv(s, st))),
            TokenView::Identifier(name) => {
                let st1 = adv(s, st);
                proof { lemma_adv(s, st); }
                let base = if st1.tok is LeftParen {
                    proof { lemma_adv(s, st1); }
                    call_tail(s, adv(s, st1), name)
                } else {
                    Some((ExprView::Variable(name), st1))
                };
                match base {
                    None => None,
                    Some((e, st2)) => if measure(s, st2) < measure(s, st) {
                        index_rest(s, st2, e)
                    } else {
                        None
                    },
                }
            },
            TokenView::LeftParen => {
                proof { lemma_adv(s, st); }
                match p_level(s, adv(s, st), 6) {
                    None => None,
                    Some((e, st2)) => match expect(s, st2, TokenView::RightParen) {
                        None => None,
                        Some(st3) => Some((e, st3)),
                    },
                }
            },
            TokenView::LeftBracket => {
                let st1 = adv(s, st);
                proof { lemma_adv(s, st); }
                if st1.tok is RightBracket {
                    Some((ExprView::ArrayLiteral(Seq::empty()), adv(s, st1)))
                } else {
                    elements(s, st1, Seq::empty())
                }
            },
            TokenView::Throw => {
                proof { lemma_adv(s, st); }
                match p_level(s, adv(s, st), 6) {
                    None => None,
                    Some((e, st2)) => Some((ExprView::ThrowStatement(Box::new(e)), st2)),
                }
            },
            _ => None,
        }
    }
}

/// The arguments of a call `name(` whose `(` is consumed, and its `)`.
pub open spec fn call_tail(s: Seq<char>, st: PState, name: Seq<char>) -> Option<(ExprView, PState)>
    decreases measure(s, st), 20nat,
{
    if st.tok is RightParen {
        Some((ExprView::FunctionCall(name, Seq::empty()), adv(s, st)))
    } else {
        match arguments(s, st, Seq::empty()) {
            None => None,
            Some((args, st2)) => match expect(s, st2, TokenView::RightParen) {
                None => None,
                Some(st3) => Some((ExprView::FunctionCall(name, args), st3)),
            },
        }
    }
}

/// Comma-separated expressions, appended to `acc`.
pub open spec fn arguments(s: Seq<char>, st: PState, acc: Seq<ExprView>) -> Option<(Seq<ExprView>, PState)>
    decreases measure(s, st), 18nat,
{
    match p_level(s, st, 6) {
        None => None,
        Some((e, st2)) => if st2.tok is Comma && good(s, st2) {
            let st3 = adv(s, st2);
            if measure(s, st3) < measure(s, st) {
                arguments(s, st3, acc.push(e))
            } else {
                None
            }
        } else {
            Some((acc.push(e), st2))
        },
    }
}

/// Any number of `[index]` after the expression `e`.
pub open spec fn index_rest(s: Seq<char>, st: PState, e: ExprView) -> Option<(ExprView, PState)>
    decreases measure(s, st), 18nat,
{
    if !good(s, st) {
        None
    } else if st.tok is LeftBracket {
        proof { lemma_adv(s, st); }
        match p_level(s, adv(s, st), 6) {
            None => None,
            Some((i, st2)) => match expect(s, st2, TokenView::RightBracket) {
                None => None,
                Some(st3) => if measure(s, st3) < measure(s, st) {
                    index_rest(s, st3, ExprView::Index(Box::new(e), Box::new(i)))
                } else {
                    None
                },
            },
        }
    } else {
        Some((e, st))
    }
}

/// The elements of an array whose `[` is consumed, appended to `acc`, and its `]`.
pub open spec fn elements(s: Seq<char>, st: PState, acc: Seq<ExprView>) -> Option<(ExprView, PState)>
    decreases measure(s, st), 18nat,
{
    match p_level(s, st, 6) {
        None => None,
        Some((e, st2)) => if st2.tok is Comma && good(s, st2) {
            let st3 = adv(s, st2);
            if st3.tok is RightBracket {
                Some((ExprView::ArrayLiteral(acc.push(e)), adv(s, st3)))
            } else if measure(s, st3) < measure(s, st) {
                elements(s, st3, acc.push(e))
            } else {
                None
            }
        } else {
            match expect(s, st2, TokenView::RightBracket) {
                None => None,
                Some(st4) => Some((ExprView::ArrayLiteral(acc.push(e)), st4)),
            }
        },
    }
}

/// The parse of a whole expression from the start of `s`, and where it stops.
pub open spec fn parse_expr(s: Seq<char>) -> Option<(ExprView, PState)> {
    p_level(s, start_state(s), 6)
}

/// The lexer for expressions.
pub struct Lexer {
    inner: base::Lexer,
}

impl Lexer {
    /// The characters being lexed.
    pub closed spec fn text(&self) -> Seq<char> {
        self.inner.text()
    }

    /// The index of the next character to read.
    pub closed spec fn pos(&self) -> int {
        self.inner.pos()
    }

    /// The lexer's state is consistent.
    pub closed spec fn wf(&self) -> bool {
        self.inner.wf()
    }

    /// The index stays within the input.
    pub proof fn lemma_pos_bounds(&self)
        requires
            self.wf(),
        ensures
            0 <= self.pos() <= self.text().len(),
    {
        self.inner.lemma_pos_bounds();
    }

    /// A lexer at the start of `input`.
    pub fn new(input: &str) -> (r: Self)
        ensures
            r.wf(),
            r.text() == input@,
            r.pos() == 0,
    {
        Lexer { inner: base::Lexer::new(input) }
    }

    fn keyword_or_identifier(ident: String) -> (r: Token)
        ensures
            r@ == expression_word(ident@),
    {
        let w = crate::text::chars_of(ident.as_str());
        if base::word_is(&w, &['t', 'r', 'u', 'e']) {
            Token::Bool(true)
        } else if base::word_is(&w, &['f', 'a', 'l', 's', 'e']) {
            Token::Bool(false)
        } else if base::word_is(&w, &['n', 'u', 'l', 'l']) {
            Token::Null
        } else if base::word_is(&w, &['a', 'n', 'd']) {
            Token::And
        } else if base::word_is(&w, &['o', 'r']) {
            Token::Or
        } else if base::word_is(&w, &['n', 'o', 't']) {
            Token::Not
        } else if base::word_is(&w, &['t', 'r', 'y']) {
            Token::Try
        } else if base::word_is(&w, &['c', 'a', 't', 'c', 'h']) {
            Token::Catch
        } else if base::word_is(&w, &['f', 'i', 'n', 'a', 'l', 'l', 'y']) {
            Token::Finally
        } else if base::word_is(&w, &['t', 'h', 'r', 'o', 'w']) {
            Token::Throw
        } else {
            Token::Identifier(ident)
        }
    }

    /// The next token: the one that `lex_expr` finds at the current
    /// position, with the position moved just past it.
    pub fn next_token(&mut self) -> (t: Token)
        requires
            old(self).wf(),
        ensures
            final(self).wf(),
            final(self).text() == old(self).text(),
            (t@, final(self).pos()) == lex_expr(old(self).text(), old(self).pos()),
    {
        let ghost s = self.inner.text();
        let ghost target = lex_expr(s, self.inner.pos());
        loop
            invariant
                self.inner.wf(),
                self.inner.text() == s,
                s == old(self).text(),
                lex_expr(s, self.inner.pos()) == target,
                target == lex_expr(old(self).text(), old(self).pos()),
            decreases s.len() - self.inner.pos(),
        {
            let ghost p = self.inner.pos();
            proof { self.inner.lemma_pos_bounds(); }
            let c = match self.inner.current() {
                None => return Token::EOF,
                Some(c) => c,
            };
            if c == ' ' || c == '\t' || c == '\r' {
                proof { lemma_run_end_bounds(s, p, |c: char| blank(c)); }
                self.inner.skip_whitespace();
                continue;
            }
            if c == '\n' {
                self.inner.advance();
                return Token::Newline;
            }
            if c == '\'' {
                let text = self.inner.read_string('\'');
                return Token::String(text);
            }
            if ascii_digit(c) {
                let num = self.inner.read_number();
                return Token::Number(num);
            }
            if alphabetic(c) || c == '_' {
                let ident = self.inner.read_identifier();
                return Self::keyword_or_identifier(ident);
            }
            if c == '=' || c == '!' || c == '<' || c == '>' {
                let next_is_eq = match self.inner.peek() {
                    Some(n) => n == '=',
                    None => false,
                };
                self.inner.advance();
                if next_is_eq {
                    self.inner.advance();
                }
                return if c == '=' {
                    if next_is_eq { Token::Equal } else { Token::Assign }
                } else if c == '!' {
                    if next_is_eq { Token::NotEqual } else { Token::Not }
                } else if c == '<' {
                    if next_is_eq { Token::LessEqual } else { Token::Less }
                } else {
                    if next_is_eq { Token::GreaterEqual } else { Token::Greater }
                };
            }
            let single = if c == '+' {
                Some(Token::Plus)
            } else if c == '-' {
                Some(Token::Minus)
            } else if c == '*' {
                Some(Token::Multiply)
            } else if c == '/' {
                Some(Token::Divide)
            } else if c == '(' {
                Some(Token::LeftParen)
            } else if c == ')' {
                Some(Token::RightParen)
            } else if c == '[' {
                Some(Token::LeftBracket)
            } else if c == ']' {
                Some(Token::RightBracket)
            } else if c == ',' {
                Some(Token::Comma)
            } else if c == '.' {
                Some(Token::Dot)
            } else {
                None
            };
            self.inner.advance();
            match single {
                Some(t) => return t,
                None => {},
            }
        }
    }
}

/// The result of a parse agrees with its specification: an expression
/// exactly where the specification has one, ending where it ends.
pub open spec fn agrees(r: Result<Expr, DataCodeError>, spec: Option<(ExprView, PState)>, after: PState) -> bool {
    match r {
        Ok(e) => spec == Some((e@, after)),
        Err(_) => spec is None,
    }
}

/// The recursive-descent expression parser.
pub struct Parser {
    lexer: Lexer,
    current_token: Token,
}

impl Parser {
    /// The characters being parsed.
    pub closed spec fn text(&self) -> Seq<char> {
        self.lexer.text()
    }

    /// The current token and the lexer's position after it.
    pub closed spec fn state(&self) -> PState {
        PState { tok: self.current_token@, pos: self.lexer.pos() }
    }

    /// The parser's state is consistent.
    pub closed spec fn wf(&self) -> bool {
        self.lexer.wf()
    }

    proof fn lemma_good(&self)
        requires
            self.wf(),
        ensures
            good(self.text(), self.state()),
    {
        self.lexer.lemma_pos_bounds();
    }

    /// A parser on `input`, its first token read.
    pub fn new(input: &str) -> (r: Self)
        ensures
            r.wf(),
            r.text() == input@,
            r.state() == start_state(input@),
    {
        let mut lexer = Lexer::new(input);
        let current_token = lexer.next_token();
        Parser { lexer, current_token }
    }

    /// The current token.
    pub fn current_token(&self) -> (r: &Token)
        ensures
            r@ == self.state().tok,
    {
        &self.current_token
    }

    /// Moves to the next token.
    pub fn advance(&mut self)
        requires
            old(self).wf(),
        ensures
            final(self).wf(),
            final(self).text() == old(self).text(),
            final(self).state() == adv(old(self).text(), old(self).state()),
    {
        self.current_token = self.lexer.next_token();
    }

    fn expect(&mut self, expected: Token) -> (r: Result<(), DataCodeError>)
        requires
            old(self).wf(),
            !(expected@ is EOF),
        ensures
            final(self).wf(),
            final(self).text() == old(self).text(),
            match r {
                Ok(_) => expect(old(self).text(), old(self).state(), expected@) == Some(final(self).state())
                    && measure(old(self).text(), final(self).state()) < measure(old(self).text(), old(self).state()),
                Err(_) => expect(old(self).text(), old(self).state(), expected@) is None,
            },
    {
        if self.current_token.kind() == expected.kind() {
            proof {
                self.lemma_good();
                lemma_adv(self.text(), self.state());
            }
            self.advance();
            Ok(())
        } else {
            Err(DataCodeError::syntax_error(expected_message(&expected, &self.current_token), 1, 0))
        }
    }

    fn binary_op_at(&self, k: u8) -> (r: Option<BinaryOp>)
        ensures
            r == op_at(k as nat, self.current_token@),
    {
        match self.current_token {
            Token::Or => if k == 6 { Some(BinaryOp::Or) } else { None },
            Token::And => if k == 5 { Some(BinaryOp::And) } else { None },
            Token::Equal => if k == 4 { Some(BinaryOp::Equal) } else { None },
            Token::NotEqual => if k == 4 { Some(BinaryOp::NotEqual) } else { None },
            Token::Less => if k == 3 { Some(BinaryOp::Less) } else { None },
            Token::Greater => if k == 3 { Some(BinaryOp::Greater) } else { None },
            Token::LessEqual => if k == 3 { Some(BinaryOp::LessEqual) } else { None },
            Token::GreaterEqual => if k == 3 { Some(BinaryOp::GreaterEqual) } else { None },
            Token::Plus => if k == 2 { Some(BinaryOp::Add) } else { None },
            Token::Minus => if k == 2 { Some(BinaryOp::Subtract) } else { None },
            Token::Divide => if k == 2 || k == 1 { Some(BinaryOp::Divide) } else { None },
            Token::Multiply => if k == 1 { Some(BinaryOp::Multiply) } else { None },
            _ => None,
        }
    }

    /// Parses an expression at the current token: `Ok` with the expression
    /// exactly when `p_level(.., 6)` finds one, the parser then standing where
    /// that parse ends; a syntax error otherwise.
    pub fn parse_expression(&mut self) -> (r: Result<Expr, DataCodeError>)
        requires
            old(self).wf(),
        ensures
            final(self).wf(),
            final(self).text() == old(self).text(),
            agrees(r, p_level(old(self).text(), old(self).state(), 6), final(self).state()),
    {
        self.parse_level(6)
    }

    fn parse_level(&mut self, k: u8) -> (r: Result<Expr, DataCodeError>)
        requires
            old(self).wf(),
            1 <= k <= 6,
        ensures
            final(self).wf(),
            final(self).text() == old(self).text(),
            agrees(r, p_level(old(self).text(), old(self).state(), k as nat), final(self).state()),
            r is Ok ==> measure(old(self).text(), final(self).state()) <= measure(old(self).text(), old(self).state()),
        decreases measure(old(self).text(), old(self).state()), 2 * k + 1,
    {
        let ghost s = self.text();
        let ghost st0 = self.state();
        let first = if k == 1 { self.parse_unary() } else { self.parse_level(k - 1) };
        let mut left = match first {
            Ok(e) => e,
            Err(err) => return Err(err),
        };
        loop
            invariant
                self.wf(),
                self.text() == s,
                s == old(self).text(),
                st0 == old(self).state(),
                1 <= k <= 6,
                measure(s, self.state()) <= measure(s, st0),
                level_rest(s, self.state(), k as nat, left@) == p_level(s, st0, k as nat),
            decreases measure(s, self.state()),
        {
            proof { self.lemma_good(); }
            let ghost st = self.state();
            match self.binary_op_at(k) {
                None => return Ok(left),
                Some(op) => {
                    proof { lemma_adv(s, st); }
                    self.advance();
                    let next = if k == 1 { self.parse_unary() } else { self.parse_level(k - 1) };
                    match next {
                        Ok(right) => {
                            left = Expr::Binary { left: Box::new(left), operator: op, right: Box::new(right) };
                        },
                        Err(err) => return Err(err),
                    }
                },
            }
        }
    }

    fn parse_unary(&mut self) -> (r: Result<Expr, DataCodeError>)
        requires
            old(self).wf(),
        ensures
            final(self).wf(),
            final(self).text() == old(self).text(),
            agrees(r, p_unary(old(self).text(), old(self).state()), final(self).state()),
            r is Ok ==> measure(old(self).text(), final(self).state()) <= measure(old(self).text(), old(self).state()),
        decreases measure(old(self).text(), old(self).state()), 1nat,
    {
        proof { self.lemma_good(); }
        let op = match self.current_token {
            Token::Not => Some(UnaryOp::Not),
            Token::Minus => Some(UnaryOp::Minus),
            _ => None,
        };
        match op {
            Some(op) => {
                proof { lemma_adv(self.text(), self.state()); }
                self.advance();
                match self.parse_unary() {
                    Ok(operand) => Ok(Expr::Unary { operator: op, operand: Box::new(operand) }),
                    Err(err) => Err(err),
                }
            },
            None => self.parse_primary(),
        }
    }

    fn parse_primary(&mut self) -> (r: Result<Expr, DataCodeError>)
        requires
            old(self).wf(),
        ensures
            final(self).wf(),
            final(self).text() == old(self).text(),
            agrees(r, p_primary(old(self).text(), old(self).state()), final(self).state()),
            r is Ok ==> measure(old(self).text(), final(self).state()) < measure(old(self).text(), old(self).state()),
        decreases measure(old(self).text(), old(self).state()), 0nat,
    {
        let ghost s = self.text();
        let ghost st = self.state();
        proof { self.lemma_good(); }
        let literal = match &self.current_token {
            Token::String(t) => Some(Value::String(t.clone())),
            Token::Number(t) => Some(Value::Number(t.clone())),
            Token::Bool(b) => Some(Value::Bool(*b)),
            Token::Null => Some(Value::Null),
            _ => None,
        };
        if let Some(v) = literal {
            proof { lemma_adv(s, st); }
            self.advance();
            return Ok(Expr::Literal(v));
        }
        let name = match &self.current_token {
            Token::Identifier(n) => Some(n.clone()),
            _ => None,
        };
        if let Some(name) = name {
            proof { lemma_adv(s, st); }
            self.advance();
            let is_call = match self.current_token {
                Token::LeftParen => true,
                _ => false,
            };
            let base = if is_call {
                proof {
                    self.lemma_good();
                    lemma_adv(s, self.state());
                }
                self.advance();
                self.parse_call_tail(name)
            } else {
                Ok(Expr::Variable(name))
            };
            return match base {
                Ok(e) => self.parse_index_rest(e),
                Err(err) => Err(err),
            };
        }
        match self.current_token {
            Token::LeftParen => {
                proof { lemma_adv(s, st); }
                self.advance();
                let e = match self.parse_level(6) {
                    Ok(e) => e,
                    Err(err) => return Err(err),
                };
                match self.expect(Token::RightParen) {
                    Ok(_) => Ok(e),
                    Err(err) => Err(err),
                }
            },
            Token::LeftBracket => {
                proof { lemma_adv(s, st); }
                self.advance();
                let empty = match self.current_token {
                    Token::RightBracket => true,
                    _ => false,
                };
                if empty {
                    proof {
                        self.lemma_good();
                        lemma_adv(s, self.state());
                    }
                    self.advance();
                    proof { assert(views(Seq::<Expr>::empty()) =~= Seq::<ExprView>::empty()); }
                    Ok(Expr::ArrayLiteral { elements: Vec::new() })
                } else {
                    self.parse_elements()
                }
            },
            Token::Throw => {
                proof { lemma_adv(s, st); }
                self.advance();
                match self.parse_level(6) {
                    Ok(e) => Ok(Expr::ThrowStatement { message: Box::new(e) }),
                    Err(err) => Err(err),
                }
            },
            _ => Err(DataCodeError::syntax_error(unexpected_message(&self.current_token), 1, 0)),
        }
    }

    fn parse_call_tail(&mut self, name: String) -> (r: Result<Expr, DataCodeError>)
        requires
            old(self).wf(),
        ensures
            final(self).wf(),
            final(self).text() == old(self).text(),
            agrees(r, call_tail(old(self).text(), old(self).state(), name@), final(self).state()),
            r is Ok ==> measure(old(self).text(), final(self).state()) <= measure(old(self).text(), old(self).state()),
        decreases measure(old(self).text(), old(self).state()), 20nat,
    {
        proof { self.lemma_good(); }
        let close = match self.current_token {
            Token::RightParen => true,
            _ => false,
        };
        if close {
            proof { lemma_adv(self.text(), self.state()); }
            self.advance();
            proof { assert(views(Seq::<Expr>::empty()) =~= Seq::<ExprView>::empty()); }
            return Ok(Expr::FunctionCall { name, args: Vec::new() });
        }
        let args = match self.parse_arguments() {
            Ok(a) => a,
            Err(err) => return Err(err),
        };
        match self.expect(Token::RightParen) {
            Ok(_) => Ok(Expr::FunctionCall { name, args }),
            Err(err) => Err(err),
        }
    }

    fn parse_arguments(&mut self) -> (r: Result<Vec<Expr>, DataCodeError>)
        requires
            old(self).wf(),
        ensures
            final(self).wf(),
            final(self).text() == old(self).text(),
            match r {
                Ok(v) => arguments(old(self).text(), old(self).state(), Seq::empty()) == Some((views(v@), final(self).state()))
                    && measure(old(self).text(), final(self).state()) <= measure(old(self).text(), old(self).state()),
                Err(_) => arguments(old(self).text(), old(self).state(), Seq::empty()) is None,
            },
        decreases measure(old(self).text(), old(self).state()), 18nat,
    {
        let ghost s = self.text();
        let ghost st0 = self.state();
        let mut args: Vec<Expr> = Vec::new();
        proof { assert(views(args@) =~= Seq::<ExprView>::empty()); }
        loop
            invariant
                self.wf(),
                self.text() == s,
                s == old(self).text(),
                st0 == old(self).state(),
                measure(s, self.state()) <= measure(s, st0),
                arguments(s, self.state(), views(args@)) == arguments(s, st0, Seq::empty()),
            decreases measure(s, self.state()),
        {
            let ghost st = self.state();
            let e = match self.parse_level(6) {
                Ok(e) => e,
                Err(err) => return Err(err),
            };
            proof { lemma_views_push(args@, e); }
            args.push(e);
            proof { self.lemma_good(); }
            let comma = match self.current_token {
                Token::Comma => true,
                _ => false,
            };
            if !comma {
                return Ok(args);
            }
            proof { lemma_adv(s, self.state()); }
            self.advance();
        }
    }

    fn parse_index_rest(&mut self, base: Expr) -> (r: Result<Expr, DataCodeError>)
        requires
            old(self).wf(),
        ensures
            final(self).wf(),
            final(self).text() == old(self).text(),
            agrees(r, index_rest(old(self).text(), old(self).state(), base@), final(self).state()),
            r is Ok ==> measure(old(self).text(), final(self).state()) <= measure(old(self).text(), old(self).state()),
        decreases measure(old(self).text(), old(self).state()), 18nat,
    {
        let ghost s = self.text();
        let ghost st0 = self.state();
        let ghost e0 = base@;
        let mut e = base;
        loop
            invariant
                self.wf(),
                self.text() == s,
                s == old(self).text(),
                st0 == old(self).state(),
                measure(s, self.state()) <= measure(s, st0),
                index_rest(s, self.state(), e@) == index_rest(s, st0, e0),
                e0 == base@,
            decreases measure(s, self.state()),
        {
            proof { self.lemma_good(); }
            let open = match self.current_token {
                Token::LeftBracket => true,
                _ => false,
            };
            if !open {
                return Ok(e);
            }
            proof { lemma_adv(s, self.state()); }
            self.advance();
            let index = match self.parse_level(6) {
                Ok(i) => i,
                Err(err) => return Err(err),
            };
            match self.expect(Token::RightBracket) {
                Ok(_) => {},
                Err(err) => return Err(err),
            }
            e = Expr::Index { object: Box::new(e), index: Box::new(index) };
        }
    }

    fn parse_elements(&mut self) -> (r: Result<Expr, DataCodeError>)
        requires
            old(self).wf(),
        ensures
            final(self).wf(),
            final(self).text() == old(self).text(),
            agrees(r, elements(old(self).text(), old(self).state(), Seq::empty()), final(self).state()),
            r is Ok ==> measure(old(self).text(), final(self).state()) <= measure(old(self).text(), old(self).state()),
        decreases measure(old(self).text(), old(self).state()), 18nat,
    {
        let ghost s = self.text();
        let ghost st0 = self.state();
        let mut elems: Vec<Expr> = Vec::new();
        proof { assert(views(elems@) =~= Seq::<ExprView>::empty()); }
        loop
            invariant_except_break
                elements(s, self.state(), views(elems@)) == elements(s, st0, Seq::empty()),
            invariant
                self.wf(),
                self.text() == s,
                s == old(self).text(),
                st0 == old(self).state(),
                measure(s, self.state()) <= measure(s, st0),
            ensures
                elements(s, st0, Seq::empty()) == match expect(s, self.state(), TokenView::RightBracket) {
                    None => None,
                    Some(st4) => Some((ExprView::ArrayLiteral(views(elems@)), st4)),
                },
            decreases measure(s, self.state()),
        {
            let e = match self.parse_level(6) {
                Ok(e) => e,
                Err(err) => return Err(err),
            };
            proof { lemma_views_push(elems@, e); }
            elems.push(e);
            proof { self.lemma_good(); }
            let comma = match self.current_token {
                Token::Comma => true,
                _ => false,
            };
            if !comma {
                break;
            }
            proof { lemma_adv(s, self.state()); }
            self.advance();
            let close = match self.current_token {
                Token::RightBracket => true,
                _ => false,
            };
            if close {
                break;
            }
        }
        match self.expect(Token::RightBracket) {
            Ok(_) => Ok(Expr::ArrayLiteral { elements: elems }),
            Err(err) => Err(err),
        }
    }
}

} // verus!
