//! The DataCode parser: tokens, the lexer, the parser that walks the tokens,
//! and the expression and statement parsers built on it.
pub mod tokens;

pub use tokens::{BinaryOp, DeclarationScope, Token, UnaryOp};
pub mod lexer;
pub mod ast;

pub use ast::Expr;
pub mod expression;
pub mod expressions;
pub mod statements;
pub mod messages;

use vstd::prelude::*;
use crate::error::DataCodeError;
use self::expression::PState;
use self::messages::expected_message;
use self::lexer::{Lexer, lex, lemma_lex_progress};
use self::tokens::{Expr as Tree, Node, TokenView, kind_of, lemma_same_kind, nodes, lemma_nodes_push};
use self::expressions::{e_level, agrees_with};
use self::statements::{stmt, program};

verus! {

/// The state of a parser just created on `s`: its first token read.
pub open spec fn opening(s: Seq<char>) -> PState {
    PState { tok: lex(s, 0).0, pos: lex(s, 0).1 }
}

/// The state after moving to the next token.
pub open spec fn step(s: Seq<char>, st: PState) -> PState {
    PState { tok: lex(s, st.pos).0, pos: lex(s, st.pos).1 }
}

/// The position lies within the input.
pub open spec fn inside(s: Seq<char>, st: PState) -> bool {
    0 <= st.pos <= s.len()
}

/// A measure of the input left to parse: it falls with each token consumed.
pub open spec fn remaining(s: Seq<char>, st: PState) -> nat {
    (if inside(s, st) { 2 * (s.len() - st.pos) } else { 0int }) as nat + (if st.tok is EOF { 0nat } else { 1nat })
}

/// Moving past a token other than `EOF` lowers the measure.
pub proof fn lemma_step(s: Seq<char>, st: PState)
    requires
        inside(s, st),
        !(st.tok is EOF),
    ensures
        inside(s, step(s, st)),
        remaining(s, step(s, st)) < remaining(s, st),
{
    lemma_lex_progress(s, st.pos);
}

/// The state after the line feeds at the current token.
pub open spec fn past_newlines(s: Seq<char>, st: PState) -> PState
    decreases remaining(s, st),
{
    if inside(s, st) && st.tok is Newline {
        proof { lemma_step(s, st); }
        past_newlines(s, step(s, st))
    } else {
        st
    }
}

/// Skipping line feeds stays inside the input, never raises the measure, and
/// stops at a token that is not a line feed.
pub proof fn lemma_past_newlines(s: Seq<char>, st: PState)
    requires
        inside(s, st),
    ensures
        inside(s, past_newlines(s, st)),
        remaining(s, past_newlines(s, st)) <= remaining(s, st),
        !(past_newlines(s, st).tok is Newline),
    decreases remaining(s, st),
{
    if st.tok is Newline {
        lemma_step(s, st);
        lemma_past_newlines(s, step(s, st));
    }
}

/// The state after the expected token, if the current token is of its kind.
pub open spec fn expecting(s: Seq<char>, st: PState, kind: TokenView) -> Option<PState> {
    if kind_of(st.tok) == kind_of(kind) {
        Some(step(s, st))
    } else {
        None
    }
}

/// The parser: a lexer and the current token, the next one to be read.
pub struct Parser {
    lexer: Lexer,
    current_token: Token,
}

impl Parser {
    /// The characters being parsed.
    pub closed spec fn text(&self) -> Seq<char> {
        self.lexer.text()
    }

    /// The current token and the lexer's position after it.
    pub closed spec fn state(&self) -> PState {
        PState { tok: self.current_token@, pos: self.lexer.pos() }
    }

    /// The parser's state is consistent.
    pub closed spec fn wf(&self) -> bool {
        self.lexer.wf()
    }

    /// A consistent parser stands inside its input.
    pub proof fn lemma_inside(&self)
        requires
            self.wf(),
        ensures
            inside(self.text(), self.state()),
    {
        self.lexer.lemma_pos_bounds();
    }

    /// A parser on `input`, its first token read.
    pub fn new(input: &str) -> (r: Self)
        ensures
            r.wf(),
            r.text() == input@,
            r.state() == opening(input@),
    {
        let mut lexer = Lexer::new(input);
        let current_token = lexer.next_token();
        Parser { lexer, current_token }
    }

    /// The current token.
    pub fn current_token(&self) -> (r: &Token)
        ensures
            r@ == self.state().tok,
    {
        &self.current_token
    }

    /// Whether the current token is `kind`, a token that holds no text.
    pub fn at(&self, kind: &Token) -> (r: bool)
        requires
            kind_of(kind@) == 3 || kind_of(kind@) >= 5,
        ensures
            r == (self.state().tok == kind@),
    {
        proof {
            if kind_of(self.state().tok) == kind_of(kind@) {
                lemma_same_kind(self.state().tok, kind@);
            }
        }
        self.current_token.kind() == kind.kind()
    }

    /// Moves to the next token.
    pub fn advance(&mut self)
        requires
            old(self).wf(),
        ensures
            final(self).wf(),
            final(self).text() == old(self).text(),
            final(self).state() == step(old(self).text(), old(self).state()),
    {
        self.current_token = self.lexer.next_token();
    }

    /// Moves past the current token if it is of the expected kind; a syntax
    /// error, the parser left as it was, if it is not.
    pub fn expect(&mut self, expected: Token) -> (r: Result<(), DataCodeError>)
        requires
            old(self).wf(),
        ensures
            final(self).wf(),
            final(self).text() == old(self).text(),
            match r {
                Ok(_) => expecting(old(self).text(), old(self).state(), expected@) == Some(final(self).state())
                    && (!(expected@ is EOF) ==> remaining(old(self).text(), final(self).state())
                        < remaining(old(self).text(), old(self).state())),
                Err(_) => expecting(old(self).text(), old(self).state(), expected@) is None
                    && final(self).state() == old(self).state(),
            },
    {
        if self.current_token.kind() == expected.kind() {
            proof {
                self.lemma_inside();
                if !(expected@ is EOF) {
                    assert(kind_of(expected@) != 49);
                    lemma_step(self.text(), self.state());
                }
            }
            self.advance();
            Ok(())
        } else {
            Err(DataCodeError::syntax_error(expected_message(&expected, &self.current_token), 1, 0))
        }
    }

    /// Parses an expression at the current token (see `e_level`).
    pub fn parse_expression(&mut self) -> (r: Result<Tree, DataCodeError>)
        requires
            old(self).wf(),
        ensures
            final(self).wf(),
            final(self).text() == old(self).text(),
            agrees_with(r, e_level(old(self).text(), old(self).state(), 6), final(self).state()),
    {
        self.parse_level(6, false)
    }

    /// Parses a statement at the current token (see `stmt`).
    pub fn parse_statement(&mut self) -> (r: Result<Tree, DataCodeError>)
        requires
            old(self).wf(),
        ensures
            final(self).wf(),
            final(self).text() == old(self).text(),
            agrees_with(r, stmt(old(self).text(), old(self).state()), final(self).state()),
    {
        self.parse_statement_at()
    }

    /// Parses statements up to the end of the input (see `program`).
    pub fn parse_program(&mut self) -> (r: Result<Vec<Tree>, DataCodeError>)
        requires
            old(self).wf(),
        ensures
            final(self).wf(),
            final(self).text() == old(self).text(),
            match r {
                Ok(v) => program(old(self).text(), old(self).state(), Seq::empty()) == Some(nodes(v@)),
                Err(_) => program(old(self).text(), old(self).state(), Seq::empty()) is None,
            },
    {
        let ghost s = self.text();
        let ghost st0 = self.state();
        let mut statements: Vec<Tree> = Vec::new();
        proof { assert(nodes(statements@) =~= Seq::<Node>::empty()); }
        loop
            invariant
                self.wf(),
                self.text() == s,
                s == old(self).text(),
                st0 == old(self).state(),
                program(s, self.state(), nodes(statements@)) == program(s, st0, Seq::empty()),
            decreases remaining(s, self.state()),
        {
            proof {
                self.lemma_inside();
                lemma_past_newlines(s, self.state());
            }
            let ghost st = self.state();
            self.skip_newlines();
            if self.at(&Token::EOF) {
                return Ok(statements);
            }
            let x = match self.parse_statement_at() {
                Ok(x) => x,
                Err(err) => return Err(err),
            };
            proof { lemma_nodes_push(statements@, x); }
            statements.push(x);
        }
    }

    /// Moves past any line feeds.
    pub fn skip_newlines(&mut self)
        requires
            old(self).wf(),
        ensures
            final(self).wf(),
            final(self).text() == old(self).text(),
            final(self).state() == past_newlines(old(self).text(), old(self).state()),
    {
        let ghost s = self.text();
        loop
            invariant
                self.wf(),
                self.text() == s,
                s == old(self).text(),
                past_newlines(s, self.state()) == past_newlines(s, old(self).state()),
            decreases remaining(s, self.state()),
        {
            proof { self.lemma_inside(); }
            let nl = match self.current_token {
                Token::Newline => true,
                _ => false,
            };
            if !nl {
                return;
            }
            proof { lemma_step(s, self.state()); }
            self.advance();
        }
    }
}

} // verus!
