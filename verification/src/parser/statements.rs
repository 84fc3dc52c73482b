//! The statement parser: declarations, assignments, `return`, `print`,
//! `if`, `for`, `try` and function definitions, over the parser's tokens.
use vstd::prelude::*;
use crate::error::DataCodeError;
use crate::text::{owned, push_string, str_eq};
use super::{Parser, step, inside, remaining, past_newlines, expecting, lemma_step, lemma_past_newlines};
use super::expression::PState;
use super::messages::{closing_keyword_message, end_of_block_message};
use super::expressions::{e_level, agrees_with};
use super::tokens::{DeclarationScope, Expr, Node, Token, TokenView, kind_of, nodes, names_of, lemma_nodes_push};

verus! {

/// The token is one of `terms`, by kind.
pub open spec fn ends_block(t: TokenView, terms: Seq<TokenView>) -> bool {
    exists|i: int| 0 <= i < terms.len() && kind_of(#[trigger] terms[i]) == kind_of(t)
}

/// The views of a list of tokens.
pub open spec fn token_views(v: Seq<Token>) -> Seq<TokenView> {
    v.map_values(|t: Token| t@)
}

/// More names after a `,` (line feeds allowed around each), appended to
/// `acc`.
pub open spec fn names_rest(s: Seq<char>, st: PState, acc: Seq<Seq<char>>) -> Option<(Seq<Seq<char>>, PState)>
    decreases remaining(s, st),
{
    if !inside(s, st) {
        None
    } else if st.tok is Comma {
        proof {
            lemma_step(s, st);
            lemma_past_newlines(s, step(s, st));
        }
        let st1 = past_newlines(s, step(s, st));
        match st1.tok {
            TokenView::Identifier(n) => {
                proof {
                    lemma_step(s, st1);
                    lemma_past_newlines(s, step(s, st1));
                }
                names_rest(s, past_newlines(s, step(s, st1)), acc.push(n))
            },
            _ => None,
        }
    } else {
        Some((acc, st))
    }
}

/// A statement, after any line feeds: `if`, `for`, `try`, a function
/// definition, `return`, a declaration, `print`, or an assignment or
/// expression. A closing keyword (`endif`, `next`, `endtry`,
/// `endfunction`) there is an error.
pub open spec fn stmt(s: Seq<char>, st: PState) -> Option<(Node, PState)>
    decreases remaining(s, st), 3nat,
{
    if !inside(s, st) {
        None
    } else {
        proof { lemma_past_newlines(s, st); }
        let st1 = past_newlines(s, st);
        match st1.tok {
            TokenView::If => if_stmt(s, st1),
            TokenView::For => for_stmt(s, st1),
            TokenView::Try => try_stmt(s, st1),
            TokenView::Function => function_def(s, st1),
            TokenView::Return => return_stmt(s, st1),
            TokenView::Global => declaration(s, st1),
            TokenView::Local => declaration(s, st1),
            TokenView::Print => print_stmt(s, st1),
            TokenView::EndIf => None,
            TokenView::Next => None,
            TokenView::EndTry => None,
            TokenView::EndFunction => None,
            _ => simple_stmt(s, st1),
        }
    }
}

/// An expression, then either `= value` (an assignment to it) or nothing
/// (an expression statement); line feeds after the expression are skipped.
pub open spec fn simple_stmt(s: Seq<char>, st: PState) -> Option<(Node, PState)> {
    match e_level(s, st, 6) {
        None => None,
        Some((l, st2)) => if inside(s, st2) {
            let st3 = past_newlines(s, st2);
            if st3.tok is Assign {
                match e_level(s, past_newlines(s, step(s, st3)), 6) {
                    None => None,
                    Some((v, st5)) => Some((Node::Assignment(Box::new(l), Box::new(v)), st5)),
                }
            } else {
                Some((Node::ExprStmt(Box::new(l)), st3))
            }
        } else {
            None
        },
    }
}

/// `global` or `local` and one or more names separated by commas.
pub open spec fn declaration(s: Seq<char>, st: PState) -> Option<(Node, PState)> {
    let scope = if st.tok is Global { DeclarationScope::Global } else { DeclarationScope::Local };
    let st1 = past_newlines(s, step(s, st));
    match st1.tok {
        TokenView::Identifier(n) => match names_rest(s, past_newlines(s, step(s, st1)), seq![n]) {
            None => None,
            Some((names, st2)) => Some((Node::Declaration(scope, names), st2)),
        },
        _ => None,
    }
}

/// `return`, with a value unless the input ends there.
pub open spec fn return_stmt(s: Seq<char>, st: PState) -> Option<(Node, PState)> {
    let st1 = past_newlines(s, step(s, st));
    if st1.tok is Newline || st1.tok is EOF {
        Some((Node::ReturnStmt(None), st1))
    } else {
        match e_level(s, st1, 6) {
            None => None,
            Some((v, st2)) => Some((Node::ReturnStmt(Some(Box::new(v))), st2)),
        }
    }
}

/// `print(a, b, ...)`, with an optional trailing comma.
pub open spec fn print_stmt(s: Seq<char>, st: PState) -> Option<(Node, PState)> {
    match expecting(s, step(s, st), TokenView::LeftParen) {
        None => None,
        Some(st2) => {
            let st3 = past_newlines(s, st2);
            if st3.tok is RightParen {
                Some((Node::PrintStmt(Seq::empty()), step(s, st3)))
            } else {
                match e_level(s, st3, 6) {
                    None => None,
                    Some((a, st4)) => if inside(s, st4) {
                        print_rest(s, past_newlines(s, st4), seq![a])
                    } else {
                        None
                    },
                }
            }
        },
    }
}

/// More arguments of `print` after a `,`, appended to `acc`, and its `)`.
pub open spec fn print_rest(s: Seq<char>, st: PState, acc: Seq<Node>) -> Option<(Node, PState)>
    decreases remaining(s, st),
{
    if !inside(s, st) {
        None
    } else if st.tok is Comma {
        proof {
            lemma_step(s, st);
            lemma_past_newlines(s, step(s, st));
        }
        let st1 = past_newlines(s, step(s, st));
        if st1.tok is RightParen {
            Some((Node::PrintStmt(acc), step(s, st1)))
        } else {
            match e_level(s, st1, 6) {
                None => None,
                Some((a, st2)) => if remaining(s, st2) <= remaining(s, st1) && inside(s, st2) {
                    proof { lemma_past_newlines(s, st2); }
                    print_rest(s, past_newlines(s, st2), acc.push(a))
                } else {
                    None
                },
            }
        }
    } else {
        match expecting(s, st, TokenView::RightParen) {
            None => None,
            Some(st2) => Some((Node::PrintStmt(acc), st2)),
        }
    }
}

/// The statements of a block, after any line feeds, up to (not past) a
/// token of one of the kinds `terms`; the end of the input before one is
/// an error.
pub open spec fn block(s: Seq<char>, st: PState, terms: Seq<TokenView>) -> Option<(Seq<Node>, PState)>
    decreases remaining(s, st), 5nat,
{
    if !inside(s, st) {
        None
    } else {
        proof { lemma_past_newlines(s, st); }
        block_rest(s, past_newlines(s, st), terms, Seq::empty())
    }
}

/// More statements of a block, appended to `acc`.
pub open spec fn block_rest(s: Seq<char>, st: PState, terms: Seq<TokenView>, acc: Seq<Node>) -> Option<(Seq<Node>, PState)>
    decreases remaining(s, st), 4nat,
{
    if !inside(s, st) {
        None
    } else if ends_block(st.tok, terms) {
        Some((acc, st))
    } else if st.tok is EOF {
        if terms.len() > 0 { None } else { Some((acc, st)) }
    } else {
        match stmt(s, st) {
            None => None,
            Some((x, st2)) => if remaining(s, st2) < remaining(s, st) && inside(s, st2) {
                proof { lemma_past_newlines(s, st2); }
                block_rest(s, past_newlines(s, st2), terms, acc.push(x))
            } else {
                None
            },
        }
    }
}

/// `if condition do ... [else do ...] endif`.
pub open spec fn if_stmt(s: Seq<char>, st: PState) -> Option<(Node, PState)>
    decreases remaining(s, st), 2nat,
{
    match e_level(s, past_newlines(s, step(s, st)), 6) {
        None => None,
        Some((c, st2)) => if !inside(s, st2) {
            None
        } else {
            match expecting(s, past_newlines(s, st2), TokenView::Do) {
                None => None,
                Some(st4) => {
                    let st5 = past_newlines(s, st4);
                    if remaining(s, st5) < remaining(s, st) {
                        if_blocks(s, st5, c)
                    } else {
                        None
                    }
                },
            }
        },
    }
}

/// The rest of an `if` whose condition `c` and `do` are consumed: the
/// statements up to `else` or `endif`, then `if_tail`.
pub open spec fn if_blocks(s: Seq<char>, st: PState, c: Node) -> Option<(Node, PState)>
    decreases remaining(s, st), 6nat,
{
    match block(s, st, seq![TokenView::Else, TokenView::EndIf]) {
        None => None,
        Some((then_part, st6)) => if remaining(s, st6) <= remaining(s, st) {
            if_tail(s, st6, c, then_part)
        } else {
            None
        },
    }
}

/// The end of an `if`: `else do` and statements up to `endif`, or nothing;
/// then `endif`.
pub open spec fn if_tail(s: Seq<char>, st: PState, c: Node, then_part: Seq<Node>) -> Option<(Node, PState)>
    decreases remaining(s, st), 1nat,
{
    if st.tok is Else {
        match expecting(s, step(s, st), TokenView::Do) {
            None => None,
            Some(st8) => {
                let st9 = past_newlines(s, st8);
                if remaining(s, st9) < remaining(s, st) {
                    match block(s, st9, seq![TokenView::EndIf]) {
                        None => None,
                        Some((else_part, st10)) => match expecting(s, st10, TokenView::EndIf) {
                            None => None,
                            Some(st11) => Some((Node::IfStmt(
                                Box::new(c),
                                Box::new(Node::Block(then_part)),
                                Some(Box::new(Node::Block(else_part))),
                            ), st11)),
                        },
                    }
                } else {
                    None
                }
            },
        }
    } else {
        match expecting(s, st, TokenView::EndIf) {
            None => None,
            Some(st7) => Some((Node::IfStmt(Box::new(c), Box::new(Node::Block(then_part)), None), st7)),
        }
    }
}

/// `for a, b in expr do ... next a`: the name after `next` must be the
/// first loop variable.
pub open spec fn for_stmt(s: Seq<char>, st: PState) -> Option<(Node, PState)>
    decreases remaining(s, st), 2nat,
{
    let st1 = past_newlines(s, step(s, st));
    match st1.tok {
        TokenView::Identifier(v) => match names_rest(s, past_newlines(s, step(s, st1)), seq![v]) {
            None => None,
            Some((vars, st2)) => if remaining(s, st2) < remaining(s, st) {
                for_iteration(s, st2, vars, v)
            } else {
                None
            },
        },
        _ => None,
    }
}

/// The rest of a `for` whose variables `vars`, the first `first`, are parsed: `in`, the
/// expression iterated over, `do`, then `for_body`.
pub open spec fn for_iteration(s: Seq<char>, st: PState, vars: Seq<Seq<char>>, first: Seq<char>) -> Option<(Node, PState)>
    decreases remaining(s, st), 7nat,
{
    match expecting(s, st, TokenView::In) {
        None => None,
        Some(st3) => match e_level(s, past_newlines(s, st3), 6) {
            None => None,
            Some((it, st5)) => if !inside(s, st5) {
                None
            } else {
                match expecting(s, past_newlines(s, st5), TokenView::Do) {
                    None => None,
                    Some(st7) => {
                        let st8 = past_newlines(s, st7);
                        if remaining(s, st8) < remaining(s, st) {
                            for_body(s, st8, vars, first, it)
                        } else {
                            None
                        }
                    },
                }
            },
        },
    }
}

/// The statements of a `for` up to `next`, then `for_end`.
pub open spec fn for_body(s: Seq<char>, st: PState, vars: Seq<Seq<char>>, first: Seq<char>, it: Node) -> Option<(Node, PState)>
    decreases remaining(s, st), 6nat,
{
    match block(s, st, seq![TokenView::Next]) {
        None => None,
        Some((body, st9)) => for_end(s, st9, vars, first, it, body),
    }
}

/// `next` and the first loop variable's name, `first`.
pub open spec fn for_end(
    s: Seq<char>,
    st: PState,
    vars: Seq<Seq<char>>,
    first: Seq<char>,
    it: Node,
    body: Seq<Node>,
) -> Option<(Node, PState)> {
    match expecting(s, st, TokenView::Next) {
        None => None,
        Some(st10) => {
            let st11 = past_newlines(s, st10);
            match st11.tok {
                TokenView::Identifier(w) => if w == first {
                    Some((Node::ForStmt(vars, Box::new(it), Box::new(Node::Block(body))), step(s, st11)))
                } else {
                    None
                },
                _ => None,
            }
        },
    }
}

/// `try ... catch name ... endtry`.
pub open spec fn try_stmt(s: Seq<char>, st: PState) -> Option<(Node, PState)>
    decreases remaining(s, st), 2nat,
{
    let st1 = past_newlines(s, step(s, st));
    if remaining(s, st1) < remaining(s, st) {
        try_blocks(s, st1)
    } else {
        None
    }
}

/// The statements of a `try` up to `catch`, then `try_catch`.
pub open spec fn try_blocks(s: Seq<char>, st: PState) -> Option<(Node, PState)>
    decreases remaining(s, st), 6nat,
{
    match block(s, st, seq![TokenView::Catch]) {
        None => None,
        Some((try_part, st2)) => if remaining(s, st2) <= remaining(s, st) {
            try_catch(s, st2, try_part)
        } else {
            None
        },
    }
}

/// `catch name`, the statements up to `endtry`, and `endtry`.
pub open spec fn try_catch(s: Seq<char>, st: PState, try_part: Seq<Node>) -> Option<(Node, PState)>
    decreases remaining(s, st), 1nat,
{
    match expecting(s, st, TokenView::Catch) {
        None => None,
        Some(st3) => {
            let st4 = past_newlines(s, st3);
            match st4.tok {
                TokenView::Identifier(v) => {
                    let st5 = past_newlines(s, step(s, st4));
                    if remaining(s, st5) < remaining(s, st) {
                        match block(s, st5, seq![TokenView::EndTry]) {
                            None => None,
                            Some((catch_part, st6)) => match expecting(s, st6, TokenView::EndTry) {
                                None => None,
                                Some(st7) => Some((Node::TryStmt(
                                    Box::new(Node::Block(try_part)),
                                    v,
                                    Box::new(Node::Block(catch_part)),
                                ), st7)),
                            },
                        }
                    } else {
                        None
                    }
                },
                _ => None,
            }
        },
    }
}

/// The parameters of a function after its `(` (and line feeds): none, or
/// names separated by commas.
pub open spec fn params(s: Seq<char>, st: PState) -> Option<(Seq<Seq<char>>, PState)> {
    if st.tok is RightParen {
        Some((Seq::empty(), st))
    } else {
        match st.tok {
            TokenView::Identifier(p) => names_rest(s, past_newlines(s, step(s, st)), seq![p]),
            _ => None,
        }
    }
}

/// The name and parameters of a function definition, up to its `)`.
pub open spec fn function_head(s: Seq<char>, st: PState) -> Option<(Seq<char>, Seq<Seq<char>>, PState)> {
    let st1 = past_newlines(s, step(s, st));
    match st1.tok {
        TokenView::Identifier(name) => match expecting(s, past_newlines(s, step(s, st1)), TokenView::LeftParen) {
            None => None,
            Some(st3) => match params(s, past_newlines(s, st3)) {
                None => None,
                Some((ps, st5)) => match expecting(s, st5, TokenView::RightParen) {
                    None => None,
                    Some(st6) => Some((name, ps, st6)),
                },
            },
        },
        _ => None,
    }
}

/// `function name(params) ... endfunction`.
pub open spec fn function_def(s: Seq<char>, st: PState) -> Option<(Node, PState)>
    decreases remaining(s, st), 2nat,
{
    match function_head(s, st) {
        None => None,
        Some((name, ps, st6)) => {
            let st7 = past_newlines(s, st6);
            if remaining(s, st7) < remaining(s, st) {
                function_body(s, st7, name, ps)
            } else {
                None
            }
        },
    }
}

/// The statements of a function up to `endfunction`, and `endfunction`.
pub open spec fn function_body(s: Seq<char>, st: PState, name: Seq<char>, ps: Seq<Seq<char>>) -> Option<(Node, PState)>
    decreases remaining(s, st), 6nat,
{
    match block(s, st, seq![TokenView::EndFunction]) {
        None => None,
        Some((body, st8)) => match expecting(s, st8, TokenView::EndFunction) {
            None => None,
            Some(st9) => Some((Node::FunctionDef(name, ps, Box::new(Node::Block(body))), st9)),
        },
    }
}

/// A program: statements, each after any line feeds, up to the end of the
/// input.
pub open spec fn program(s: Seq<char>, st: PState, acc: Seq<Node>) -> Option<Seq<Node>>
    decreases remaining(s, st),
{
    if !inside(s, st) {
        None
    } else {
        proof { lemma_past_newlines(s, st); }
        let st1 = past_newlines(s, st);
        if st1.tok is EOF {
            Some(acc)
        } else {
            match stmt(s, st1) {
                None => None,
                Some((x, st2)) => if remaining(s, st2) < remaining(s, st1) {
                    program(s, st2, acc.push(x))
                } else {
                    None
                },
            }
        }
    }
}

/// The statement parser, working on a parser's tokens.
pub struct StatementParser<'a> {
    pub parser: &'a mut Parser,
}

impl<'a> StatementParser<'a> {
    /// A statement parser on `parser`'s tokens.
    pub fn new(parser: &'a mut Parser) -> (r: Self)
        ensures
            *r.parser == *old(parser),
            *final(parser) == *final(r.parser),
    {
        StatementParser { parser }
    }

    /// Parses a statement at the current token: `Ok` with the tree exactly
    /// when `stmt` finds one, the parser then standing where it ends; a
    /// syntax error otherwise.
    pub fn parse_statement(&mut self) -> (r: Result<Expr, DataCodeError>)
        requires
            old(self).parser.wf(),
        ensures
            final(self).parser.wf(),
            final(self).parser.text() == old(self).parser.text(),
            agrees_with(r, stmt(old(self).parser.text(), old(self).parser.state()), final(self).parser.state()),
            *final(final(self).parser) == *final(old(self).parser),
    {
        self.parser.parse_statement_at()
    }
}

/// The text `prefix`, then `name`, then `suffix`.
fn message_with(prefix: &str, name: &str, suffix: &str) -> (r: String)
    ensures
        r@ == prefix@ + name@ + suffix@,
{
    let mut m = owned(prefix);
    push_string(&mut m, name);
    push_string(&mut m, suffix);
    m
}

/// Appending a name appends its text.
proof fn lemma_names_push(v: Seq<String>, n: String)
    ensures
        names_of(v.push(n)) == names_of(v).push(n@),
{
    assert(names_of(v.push(n)) =~= names_of(v).push(n@));
}

impl Parser {
    /// Whether the current token is of one of the kinds `terminators`.
    fn at_terminator(&self, terminators: &[Token]) -> (r: bool)
        ensures
            r == ends_block(self.state().tok, token_views(terminators@)),
    {
        let k = self.current_token().kind();
        let mut i: usize = 0;
        while i < terminators.len()
            invariant
                i <= terminators.len(),
                k == kind_of(self.state().tok),
                forall|j: int| 0 <= j < i ==> kind_of(#[trigger] token_views(terminators@)[j]) != k,
            decreases terminators.len() - i,
        {
            if terminators[i].kind() == k {
                assert(kind_of(token_views(terminators@)[i as int]) == k);
                return true;
            }
            i = i + 1;
        }
        false
    }

    /// Parses more names after a `,`, appended to `names`; `message` is the
    /// error for a comma not followed by a name.
    fn parse_names_rest(&mut self, initial: Vec<String>, message: &str) -> (r: Result<Vec<String>, DataCodeError>)
        requires
            old(self).wf(),
        ensures
            final(self).wf(),
            final(self).text() == old(self).text(),
            match r {
                Ok(v) => names_rest(old(self).text(), old(self).state(), names_of(initial@))
                    == Some((names_of(v@), final(self).state()))
                    && remaining(old(self).text(), final(self).state()) <= remaining(old(self).text(), old(self).state()),
                Err(_) => names_rest(old(self).text(), old(self).state(), names_of(initial@)) is None,
            },
    {
        let ghost s = self.text();
        let ghost st0 = self.state();
        let ghost n0 = initial@;
        let mut names = initial;
        loop
            invariant
                self.wf(),
                self.text() == s,
                s == old(self).text(),
                st0 == old(self).state(),
                remaining(s, self.state()) <= remaining(s, st0),
                n0 == initial@,
                names_rest(s, self.state(), names_of(names@)) == names_rest(s, st0, names_of(n0)),
            decreases remaining(s, self.state()),
        {
            proof { self.lemma_inside(); }
            let ghost st = self.state();
            if !self.at(&Token::Comma) {
                return Ok(names);
            }
            proof {
                lemma_step(s, st);
                lemma_past_newlines(s, step(s, st));
            }
            self.advance();
            self.skip_newlines();
            let ghost st1 = self.state();
            match self.identifier_at() {
                Some(n) => {
                    proof {
                        lemma_step(s, st1);
                        lemma_past_newlines(s, step(s, st1));
                        lemma_names_push(names@, n);
                    }
                    self.advance();
                    self.skip_newlines();
                    names.push(n);
                },
                None => return Err(DataCodeError::syntax_error(owned(message), 1, 0)),
            }
        }
    }

    /// Parses a statement (see `stmt`).
    pub(crate) fn parse_statement_at(&mut self) -> (r: Result<Expr, DataCodeError>)
        requires
            old(self).wf(),
        ensures
            final(self).wf(),
            final(self).text() == old(self).text(),
            agrees_with(r, stmt(old(self).text(), old(self).state()), final(self).state()),
            r is Ok ==> remaining(old(self).text(), final(self).state()) < remaining(old(self).text(), old(self).state()),
        decreases remaining(old(self).text(), old(self).state()), 3nat,
    {
        proof {
            self.lemma_inside();
            lemma_past_newlines(self.text(), self.state());
        }
        self.skip_newlines();
        if self.at(&Token::If) {
            self.parse_if_stmt()
        } else if self.at(&Token::For) {
            self.parse_for_stmt()
        } else if self.at(&Token::Try) {
            self.parse_try_stmt()
        } else if self.at(&Token::Function) {
            self.parse_function_def()
        } else if self.at(&Token::Return) {
            self.parse_return_stmt()
        } else if self.at(&Token::Global) || self.at(&Token::Local) {
            self.parse_declaration()
        } else if self.at(&Token::Print) {
            self.parse_print_stmt()
        } else if self.at(&Token::EndIf) || self.at(&Token::Next) || self.at(&Token::EndTry)
            || self.at(&Token::EndFunction) {
            Err(DataCodeError::syntax_error(closing_keyword_message(self.current_token()), 1, 0))
        } else {
            self.parse_simple_stmt()
        }
    }

    /// Parses an assignment or an expression statement.
    fn parse_simple_stmt(&mut self) -> (r: Result<Expr, DataCodeError>)
        requires
            old(self).wf(),
        ensures
            final(self).wf(),
            final(self).text() == old(self).text(),
            agrees_with(r, simple_stmt(old(self).text(), old(self).state()), final(self).state()),
            r is Ok ==> remaining(old(self).text(), final(self).state()) < remaining(old(self).text(), old(self).state()),
    {
        let ghost s = self.text();
        let left = match self.parse_level(6, false) {
            Ok(e) => e,
            Err(err) => return Err(err),
        };
        proof {
            self.lemma_inside();
            lemma_past_newlines(s, self.state());
        }
        self.skip_newlines();
        if self.at(&Token::Assign) {
            proof {
                lemma_step(s, self.state());
                lemma_past_newlines(s, step(s, self.state()));
            }
            self.advance();
            self.skip_newlines();
            match self.parse_level(6, false) {
                Ok(value) => Ok(Expr::Assignment { target: Box::new(left), value: Box::new(value) }),
                Err(err) => Err(err),
            }
        } else {
            Ok(Expr::ExprStmt { expr: Box::new(left) })
        }
    }

    /// Parses a declaration, at `global` or `local`.
    fn parse_declaration(&mut self) -> (r: Result<Expr, DataCodeError>)
        requires
            old(self).wf(),
            old(self).state().tok is Global || old(self).state().tok is Local,
        ensures
            final(self).wf(),
            final(self).text() == old(self).text(),
            agrees_with(r, declaration(old(self).text(), old(self).state()), final(self).state()),
            r is Ok ==> remaining(old(self).text(), final(self).state()) < remaining(old(self).text(), old(self).state()),
    {
        let ghost s = self.text();
        let ghost st = self.state();
        proof {
            self.lemma_inside();
            lemma_step(s, st);
            lemma_past_newlines(s, step(s, st));
        }
        let scope = if self.at(&Token::Global) { DeclarationScope::Global } else { DeclarationScope::Local };
        self.advance();
        self.skip_newlines();
        let ghost st1 = self.state();
        match self.identifier_at() {
            Some(n) => {
                proof {
                    lemma_step(s, st1);
                    lemma_past_newlines(s, step(s, st1));
                    lemma_names_push(Seq::<String>::empty(), n);
                    assert(Seq::<String>::empty().push(n) =~= seq![n]);
                    assert(seq![n@] =~= Seq::<Seq<char>>::empty().push(n@));
                }
                self.advance();
                self.skip_newlines();
                let mut names: Vec<String> = Vec::new();
                names.push(n);
                proof { assert(names_of(names@) =~= seq![n@]); }
                match self.parse_names_rest(names, "Expected identifier after comma in declaration") {
                    Ok(names) => Ok(Expr::Declaration { scope, names }),
                    Err(err) => Err(err),
                }
            },
            None => Err(DataCodeError::syntax_error(owned("Expected identifier after global/local"), 1, 0)),
        }
    }

    /// Parses `return`, at `return`.
    fn parse_return_stmt(&mut self) -> (r: Result<Expr, DataCodeError>)
        requires
            old(self).wf(),
            old(self).state().tok is Return,
        ensures
            final(self).wf(),
            final(self).text() == old(self).text(),
            agrees_with(r, return_stmt(old(self).text(), old(self).state()), final(self).state()),
            r is Ok ==> remaining(old(self).text(), final(self).state()) < remaining(old(self).text(), old(self).state()),
    {
        let ghost s = self.text();
        let ghost st = self.state();
        proof {
            self.lemma_inside();
            lemma_step(s, st);
            lemma_past_newlines(s, step(s, st));
        }
        self.advance();
        self.skip_newlines();
        if self.at(&Token::Newline) || self.at(&Token::EOF) {
            Ok(Expr::ReturnStmt { value: None })
        } else {
            match self.parse_level(6, false) {
                Ok(v) => Ok(Expr::ReturnStmt { value: Some(Box::new(v)) }),
                Err(err) => Err(err),
            }
        }
    }

    /// Parses `print(...)`, at `print`.
    fn parse_print_stmt(&mut self) -> (r: Result<Expr, DataCodeError>)
        requires
            old(self).wf(),
            old(self).state().tok is Print,
        ensures
            final(self).wf(),
            final(self).text() == old(self).text(),
            agrees_with(r, print_stmt(old(self).text(), old(self).state()), final(self).state()),
            r is Ok ==> remaining(old(self).text(), final(self).state()) < remaining(old(self).text(), old(self).state()),
    {
        let ghost s = self.text();
        let ghost st0 = self.state();
        proof {
            self.lemma_inside();
            lemma_step(s, st0);
        }
        self.advance();
        match self.expect(Token::LeftParen) {
            Ok(_) => {},
            Err(err) => return Err(err),
        }
        proof {
            self.lemma_inside();
            lemma_past_newlines(s, self.state());
        }
        self.skip_newlines();
        let mut args: Vec<Expr> = Vec::new();
        proof { assert(nodes(args@) =~= Seq::<Node>::empty()); }
        if self.at(&Token::RightParen) {
            return match self.expect(Token::RightParen) {
                Ok(_) => Ok(Expr::PrintStmt { args }),
                Err(err) => Err(err),
            };
        }
        let first = match self.parse_level(6, false) {
            Ok(e) => e,
            Err(err) => return Err(err),
        };
        proof {
            lemma_nodes_push(args@, first);
            assert(seq![first@] =~= Seq::<Node>::empty().push(first@));
        }
        args.push(first);
        proof {
            self.lemma_inside();
            lemma_past_newlines(s, self.state());
        }
        self.skip_newlines();
        loop
            invariant
                self.wf(),
                self.text() == s,
                s == old(self).text(),
                st0 == old(self).state(),
                remaining(s, self.state()) < remaining(s, st0),
                print_rest(s, self.state(), nodes(args@)) == print_stmt(s, st0),
            decreases remaining(s, self.state()),
        {
            proof { self.lemma_inside(); }
            let ghost st = self.state();
            if !self.at(&Token::Comma) {
                return match self.expect(Token::RightParen) {
                    Ok(_) => Ok(Expr::PrintStmt { args }),
                    Err(err) => Err(err),
                };
            }
            proof {
                lemma_step(s, st);
                lemma_past_newlines(s, step(s, st));
            }
            self.advance();
            self.skip_newlines();
            if self.at(&Token::RightParen) {
                return match self.expect(Token::RightParen) {
                    Ok(_) => Ok(Expr::PrintStmt { args }),
                    Err(err) => Err(err),
                };
            }
            let a = match self.parse_level(6, false) {
                Ok(e) => e,
                Err(err) => return Err(err),
            };
            proof { lemma_nodes_push(args@, a); }
            args.push(a);
            proof {
                self.lemma_inside();
                lemma_past_newlines(s, self.state());
            }
            self.skip_newlines();
        }
    }

    /// Parses the statements of a block up to a token of one of the kinds
    /// `terminators`, which is not consumed.
    fn parse_block(&mut self, terminators: &[Token]) -> (r: Result<Vec<Expr>, DataCodeError>)
        requires
            old(self).wf(),
        ensures
            final(self).wf(),
            final(self).text() == old(self).text(),
            match r {
                Ok(v) => block(old(self).text(), old(self).state(), token_views(terminators@))
                    == Some((nodes(v@), final(self).state()))
                    && remaining(old(self).text(), final(self).state()) <= remaining(old(self).text(), old(self).state()),
                Err(_) => block(old(self).text(), old(self).state(), token_views(terminators@)) is None,
            },
        decreases remaining(old(self).text(), old(self).state()), 5nat,
    {
        let ghost s = self.text();
        let ghost st0 = self.state();
        let ghost terms = token_views(terminators@);
        proof {
            self.lemma_inside();
            lemma_past_newlines(s, st0);
        }
        self.skip_newlines();
        let mut statements: Vec<Expr> = Vec::new();
        proof { assert(nodes(statements@) =~= Seq::<Node>::empty()); }
        loop
            invariant
                self.wf(),
                self.text() == s,
                s == old(self).text(),
                st0 == old(self).state(),
                terms == token_views(terminators@),
                remaining(s, self.state()) <= remaining(s, st0),
                block_rest(s, self.state(), terms, nodes(statements@)) == block(s, st0, terms),
            decreases remaining(s, self.state()),
        {
            proof { self.lemma_inside(); }
            let ghost st = self.state();
            if self.at_terminator(terminators) {
                return Ok(statements);
            }
            if self.at(&Token::EOF) {
                if terminators.len() > 0 {
                    return Err(DataCodeError::syntax_error(end_of_block_message(terminators), 1, 0));
                }
                return Ok(statements);
            }
            let x = match self.parse_statement_at() {
                Ok(x) => x,
                Err(err) => return Err(err),
            };
            proof { lemma_nodes_push(statements@, x); }
            statements.push(x);
            proof {
                self.lemma_inside();
                lemma_past_newlines(s, self.state());
            }
            self.skip_newlines();
        }
    }

    /// Parses `if condition do ... [else do ...] endif`, at `if`.
    fn parse_if_stmt(&mut self) -> (r: Result<Expr, DataCodeError>)
        requires
            old(self).wf(),
            old(self).state().tok is If,
        ensures
            final(self).wf(),
            final(self).text() == old(self).text(),
            agrees_with(r, if_stmt(old(self).text(), old(self).state()), final(self).state()),
            r is Ok ==> remaining(old(self).text(), final(self).state()) < remaining(old(self).text(), old(self).state()),
        decreases remaining(old(self).text(), old(self).state()), 2nat,
    {
        let ghost s = self.text();
        let ghost st0 = self.state();
        proof {
            self.lemma_inside();
            lemma_step(s, st0);
            lemma_past_newlines(s, step(s, st0));
        }
        self.advance();
        self.skip_newlines();
        let condition = match self.parse_level(6, false) {
            Ok(c) => c,
            Err(err) => return Err(err),
        };
        proof {
            self.lemma_inside();
            lemma_past_newlines(s, self.state());
        }
        self.skip_newlines();
        match self.expect(Token::Do) {
            Ok(_) => {},
            Err(err) => return Err(err),
        }
        proof {
            self.lemma_inside();
            lemma_past_newlines(s, self.state());
        }
        self.skip_newlines();
        self.parse_if_blocks(condition)
    }

    /// Parses the rest of an `if` whose condition `c` and `do` are consumed.
    fn parse_if_blocks(&mut self, c: Expr) -> (r: Result<Expr, DataCodeError>)
        requires
            old(self).wf(),
        ensures
            final(self).wf(),
            final(self).text() == old(self).text(),
            agrees_with(r, if_blocks(old(self).text(), old(self).state(), c@), final(self).state()),
            r is Ok ==> remaining(old(self).text(), final(self).state()) <= remaining(old(self).text(), old(self).state()),
        decreases remaining(old(self).text(), old(self).state()), 6nat,
    {
        let terms = vec![Token::Else, Token::EndIf];
        proof { assert(token_views(terms@) =~= seq![TokenView::Else, TokenView::EndIf]); }
        let then_part = match self.parse_block(terms.as_slice()) {
            Ok(b) => b,
            Err(err) => return Err(err),
        };
        self.parse_if_tail(c, then_part)
    }

    /// Parses the end of an `if` whose statements `then_part` are parsed.
    fn parse_if_tail(&mut self, c: Expr, then_part: Vec<Expr>) -> (r: Result<Expr, DataCodeError>)
        requires
            old(self).wf(),
        ensures
            final(self).wf(),
            final(self).text() == old(self).text(),
            agrees_with(r, if_tail(old(self).text(), old(self).state(), c@, nodes(then_part@)), final(self).state()),
            r is Ok ==> remaining(old(self).text(), final(self).state()) < remaining(old(self).text(), old(self).state()),
        decreases remaining(old(self).text(), old(self).state()), 1nat,
    {
        let ghost s = self.text();
        let ghost st0 = self.state();
        proof { self.lemma_inside(); }
        if self.at(&Token::Else) {
            proof { lemma_step(s, st0); }
            self.advance();
            match self.expect(Token::Do) {
                Ok(_) => {},
                Err(err) => return Err(err),
            }
            proof {
                self.lemma_inside();
                lemma_past_newlines(s, self.state());
            }
            self.skip_newlines();
            let terms = vec![Token::EndIf];
            proof { assert(token_views(terms@) =~= seq![TokenView::EndIf]); }
            let else_part = match self.parse_block(terms.as_slice()) {
                Ok(b) => b,
                Err(err) => return Err(err),
            };
            let then_block = Expr::Block { statements: then_part };
            let else_block = Expr::Block { statements: else_part };
            assert(then_block@ == Node::Block(nodes(then_part@)));
            assert(else_block@ == Node::Block(nodes(else_part@)));
            match self.expect(Token::EndIf) {
                Ok(_) => Ok(Expr::IfStmt {
                    condition: Box::new(c),
                    then_block: Box::new(then_block),
                    else_block: Some(Box::new(else_block)),
                }),
                Err(err) => Err(err),
            }
        } else {
            let then_block = Expr::Block { statements: then_part };
            assert(then_block@ == Node::Block(nodes(then_part@)));
            match self.expect(Token::EndIf) {
                Ok(_) => Ok(Expr::IfStmt { condition: Box::new(c), then_block: Box::new(then_block), else_block: None }),
                Err(err) => Err(err),
            }
        }
    }

    /// Parses `for a, b in expr do ... next a`, at `for`.
    fn parse_for_stmt(&mut self) -> (r: Result<Expr, DataCodeError>)
        requires
            old(self).wf(),
            old(self).state().tok is For,
        ensures
            final(self).wf(),
            final(self).text() == old(self).text(),
            agrees_with(r, for_stmt(old(self).text(), old(self).state()), final(self).state()),
            r is Ok ==> remaining(old(self).text(), final(self).state()) < remaining(old(self).text(), old(self).state()),
        decreases remaining(old(self).text(), old(self).state()), 2nat,
    {
        let ghost s = self.text();
        let ghost st0 = self.state();
        proof {
            self.lemma_inside();
            lemma_step(s, st0);
            lemma_past_newlines(s, step(s, st0));
        }
        self.advance();
        self.skip_newlines();
        let ghost st1 = self.state();
        let first = match self.identifier_at() {
            Some(v) => v,
            None => return Err(DataCodeError::syntax_error(owned("Expected identifier after 'for'"), 1, 0)),
        };
        proof {
            lemma_step(s, st1);
            lemma_past_newlines(s, step(s, st1));
        }
        self.advance();
        self.skip_newlines();
        let first_var = first.clone();
        let mut vars: Vec<String> = Vec::new();
        vars.push(first);
        proof { assert(names_of(vars@) =~= seq![first_var@]); }
        let vars = match self.parse_names_rest(vars, "Expected identifier after comma in for loop") {
            Ok(v) => v,
            Err(err) => return Err(err),
        };
        self.parse_for_iteration(vars, first_var)
    }

    /// Parses the rest of a `for` whose variables `vars` are parsed.
    fn parse_for_iteration(&mut self, vars: Vec<String>, first: String) -> (r: Result<Expr, DataCodeError>)
        requires
            old(self).wf(),
        ensures
            final(self).wf(),
            final(self).text() == old(self).text(),
            agrees_with(r, for_iteration(old(self).text(), old(self).state(), names_of(vars@), first@), final(self).state()),
            r is Ok ==> remaining(old(self).text(), final(self).state()) < remaining(old(self).text(), old(self).state()),
        decreases remaining(old(self).text(), old(self).state()), 7nat,
    {
        let ghost s = self.text();
        match self.expect(Token::In) {
            Ok(_) => {},
            Err(err) => return Err(err),
        }
        proof {
            self.lemma_inside();
            lemma_past_newlines(s, self.state());
        }
        self.skip_newlines();
        let iter_expr = match self.parse_level(6, false) {
            Ok(e) => e,
            Err(err) => return Err(err),
        };
        proof {
            self.lemma_inside();
            lemma_past_newlines(s, self.state());
        }
        self.skip_newlines();
        match self.expect(Token::Do) {
            Ok(_) => {},
            Err(err) => return Err(err),
        }
        proof {
            self.lemma_inside();
            lemma_past_newlines(s, self.state());
        }
        self.skip_newlines();
        self.parse_for_body(vars, first, iter_expr)
    }

    /// Parses the statements of a `for` up to `next`, and what follows it.
    fn parse_for_body(&mut self, vars: Vec<String>, first: String, iter_expr: Expr) -> (r: Result<Expr, DataCodeError>)
        requires
            old(self).wf(),
        ensures
            final(self).wf(),
            final(self).text() == old(self).text(),
            agrees_with(r, for_body(old(self).text(), old(self).state(), names_of(vars@), first@, iter_expr@),
                final(self).state()),
            r is Ok ==> remaining(old(self).text(), final(self).state()) <= remaining(old(self).text(), old(self).state()),
        decreases remaining(old(self).text(), old(self).state()), 6nat,
    {
        let terms = vec![Token::Next];
        proof { assert(token_views(terms@) =~= seq![TokenView::Next]); }
        let body = match self.parse_block(terms.as_slice()) {
            Ok(b) => b,
            Err(err) => return Err(err),
        };
        self.parse_for_end(vars, first, iter_expr, body)
    }

    /// Parses `next` and the first loop variable's name.
    fn parse_for_end(&mut self, vars: Vec<String>, first: String, iter_expr: Expr, body: Vec<Expr>) -> (r: Result<Expr, DataCodeError>)
        requires
            old(self).wf(),
        ensures
            final(self).wf(),
            final(self).text() == old(self).text(),
            agrees_with(r, for_end(old(self).text(), old(self).state(), names_of(vars@), first@, iter_expr@, nodes(body@)),
                final(self).state()),
            r is Ok ==> remaining(old(self).text(), final(self).state()) < remaining(old(self).text(), old(self).state()),
    {
        let ghost s = self.text();
        match self.expect(Token::Next) {
            Ok(_) => {},
            Err(err) => return Err(err),
        }
        proof {
            self.lemma_inside();
            lemma_past_newlines(s, self.state());
        }
        self.skip_newlines();
        proof { self.lemma_inside(); }
        match self.identifier_at() {
            Some(next_var) => {
                if !str_eq(next_var.as_str(), first.as_str()) {
                    let mut m = owned("Mismatched next: expected 'next ");
                    push_string(&mut m, first.as_str());
                    push_string(&mut m, "' but found 'next ");
                    push_string(&mut m, next_var.as_str());
                    push_string(&mut m, "'");
                    return Err(DataCodeError::syntax_error(m, 1, 0));
                }
                proof { lemma_step(s, self.state()); }
                self.advance();
                let block = Expr::Block { statements: body };
                assert(block@ == Node::Block(nodes(body@)));
                Ok(Expr::ForStmt { vars, iter_expr: Box::new(iter_expr), body: Box::new(block) })
            },
            None => Err(DataCodeError::syntax_error(
                message_with("Expected identifier after 'next', expected 'next ", first.as_str(), "'"),
                1,
                0,
            )),
        }
    }

    /// Parses `try ... catch name ... endtry`, at `try`.
    fn parse_try_stmt(&mut self) -> (r: Result<Expr, DataCodeError>)
        requires
            old(self).wf(),
            old(self).state().tok is Try,
        ensures
            final(self).wf(),
            final(self).text() == old(self).text(),
            agrees_with(r, try_stmt(old(self).text(), old(self).state()), final(self).state()),
            r is Ok ==> remaining(old(self).text(), final(self).state()) < remaining(old(self).text(), old(self).state()),
        decreases remaining(old(self).text(), old(self).state()), 2nat,
    {
        let ghost s = self.text();
        let ghost st0 = self.state();
        proof {
            self.lemma_inside();
            lemma_step(s, st0);
            lemma_past_newlines(s, step(s, st0));
        }
        self.advance();
        self.skip_newlines();
        self.parse_try_blocks()
    }

    /// Parses the statements of a `try` up to `catch`, and what follows.
    fn parse_try_blocks(&mut self) -> (r: Result<Expr, DataCodeError>)
        requires
            old(self).wf(),
        ensures
            final(self).wf(),
            final(self).text() == old(self).text(),
            agrees_with(r, try_blocks(old(self).text(), old(self).state()), final(self).state()),
            r is Ok ==> remaining(old(self).text(), final(self).state()) <= remaining(old(self).text(), old(self).state()),
        decreases remaining(old(self).text(), old(self).state()), 6nat,
    {
        let terms = vec![Token::Catch];
        proof { assert(token_views(terms@) =~= seq![TokenView::Catch]); }
        let try_part = match self.parse_block(terms.as_slice()) {
            Ok(b) => b,
            Err(err) => return Err(err),
        };
        self.parse_try_catch(try_part)
    }

    /// Parses `catch name`, its statements up to `endtry`, and `endtry`.
    fn parse_try_catch(&mut self, try_part: Vec<Expr>) -> (r: Result<Expr, DataCodeError>)
        requires
            old(self).wf(),
        ensures
            final(self).wf(),
            final(self).text() == old(self).text(),
            agrees_with(r, try_catch(old(self).text(), old(self).state(), nodes(try_part@)), final(self).state()),
            r is Ok ==> remaining(old(self).text(), final(self).state()) < remaining(old(self).text(), old(self).state()),
        decreases remaining(old(self).text(), old(self).state()), 1nat,
    {
        let ghost s = self.text();
        match self.expect(Token::Catch) {
            Ok(_) => {},
            Err(err) => return Err(err),
        }
        proof {
            self.lemma_inside();
            lemma_past_newlines(s, self.state());
        }
        self.skip_newlines();
        let ghost st4 = self.state();
        proof { self.lemma_inside(); }
        let catch_var = match self.identifier_at() {
            Some(v) => v,
            None => return Err(DataCodeError::syntax_error(owned("Expected identifier after 'catch'"), 1, 0)),
        };
        proof {
            lemma_step(s, st4);
            lemma_past_newlines(s, step(s, st4));
        }
        self.advance();
        self.skip_newlines();
        let terms = vec![Token::EndTry];
        proof { assert(token_views(terms@) =~= seq![TokenView::EndTry]); }
        let catch_part = match self.parse_block(terms.as_slice()) {
            Ok(b) => b,
            Err(err) => return Err(err),
        };
        let try_block = Expr::Block { statements: try_part };
        let catch_block = Expr::Block { statements: catch_part };
        assert(try_block@ == Node::Block(nodes(try_part@)));
        assert(catch_block@ == Node::Block(nodes(catch_part@)));
        match self.expect(Token::EndTry) {
            Ok(_) => Ok(Expr::TryStmt { try_block: Box::new(try_block), catch_var, catch_block: Box::new(catch_block) }),
            Err(err) => Err(err),
        }
    }

    /// Parses the name and parameters of a function definition, at
    /// `function`, up to its `)`.
    fn parse_function_head(&mut self) -> (r: Result<(String, Vec<String>), DataCodeError>)
        requires
            old(self).wf(),
            old(self).state().tok is Function,
        ensures
            final(self).wf(),
            final(self).text() == old(self).text(),
            match r {
                Ok((name, ps)) => function_head(old(self).text(), old(self).state())
                    == Some((name@, names_of(ps@), final(self).state()))
                    && remaining(old(self).text(), final(self).state()) < remaining(old(self).text(), old(self).state()),
                Err(_) => function_head(old(self).text(), old(self).state()) is None,
            },
    {
        let ghost s = self.text();
        let ghost st0 = self.state();
        proof {
            self.lemma_inside();
            lemma_step(s, st0);
            lemma_past_newlines(s, step(s, st0));
        }
        self.advance();
        self.skip_newlines();
        let ghost st1 = self.state();
        let name = match self.identifier_at() {
            Some(n) => n,
            None => return Err(DataCodeError::syntax_error(owned("Expected identifier after 'function'"), 1, 0)),
        };
        proof {
            lemma_step(s, st1);
            lemma_past_newlines(s, step(s, st1));
        }
        self.advance();
        self.skip_newlines();
        match self.expect(Token::LeftParen) {
            Ok(_) => {},
            Err(err) => return Err(err),
        }
        proof {
            self.lemma_inside();
            lemma_past_newlines(s, self.state());
        }
        self.skip_newlines();
        let ghost st4 = self.state();
        proof { assert(names_of(Seq::<String>::empty()) =~= Seq::<Seq<char>>::empty()); }
        let params: Vec<String> = if self.at(&Token::RightParen) {
            Vec::new()
        } else {
            match self.identifier_at() {
                Some(p) => {
                    proof {
                        lemma_step(s, st4);
                        lemma_past_newlines(s, step(s, st4));
                    }
                    let ghost pv = p@;
                    self.advance();
                    self.skip_newlines();
                    let mut first: Vec<String> = Vec::new();
                    first.push(p);
                    proof { assert(names_of(first@) =~= seq![pv]); }
                    match self.parse_names_rest(first, "Expected identifier after comma in function parameters") {
                        Ok(v) => v,
                        Err(err) => return Err(err),
                    }
                },
                None => {
                    return Err(DataCodeError::syntax_error(
                        owned("Expected identifier or ')' in function parameters"),
                        1,
                        0,
                    ));
                },
            }
        };
        match self.expect(Token::RightParen) {
            Ok(_) => Ok((name, params)),
            Err(err) => Err(err),
        }
    }

    /// Parses `function name(params) ... endfunction`, at `function`.
    fn parse_function_def(&mut self) -> (r: Result<Expr, DataCodeError>)
        requires
            old(self).wf(),
            old(self).state().tok is Function,
        ensures
            final(self).wf(),
            final(self).text() == old(self).text(),
            agrees_with(r, function_def(old(self).text(), old(self).state()), final(self).state()),
            r is Ok ==> remaining(old(self).text(), final(self).state()) < remaining(old(self).text(), old(self).state()),
        decreases remaining(old(self).text(), old(self).state()), 2nat,
    {
        let ghost s = self.text();
        let (name, params) = match self.parse_function_head() {
            Ok(h) => h,
            Err(err) => return Err(err),
        };
        proof {
            self.lemma_inside();
            lemma_past_newlines(s, self.state());
        }
        self.skip_newlines();
        self.parse_function_body(name, params)
    }

    /// Parses the statements of a function up to `endfunction`, and
    /// `endfunction`.
    fn parse_function_body(&mut self, name: String, params: Vec<String>) -> (r: Result<Expr, DataCodeError>)
        requires
            old(self).wf(),
        ensures
            final(self).wf(),
            final(self).text() == old(self).text(),
            agrees_with(r, function_body(old(self).text(), old(self).state(), name@, names_of(params@)),
                final(self).state()),
            r is Ok ==> remaining(old(self).text(), final(self).state()) < remaining(old(self).text(), old(self).state()),
        decreases remaining(old(self).text(), old(self).state()), 6nat,
    {
        let terms = vec![Token::EndFunction];
        proof { assert(token_views(terms@) =~= seq![TokenView::EndFunction]); }
        let body = match self.parse_block(terms.as_slice()) {
            Ok(b) => b,
            Err(err) => return Err(err),
        };
        let block = Expr::Block { statements: body };
        assert(block@ == Node::Block(nodes(body@)));
        match self.expect(Token::EndFunction) {
            Ok(_) => Ok(Expr::FunctionDef { name, params, body: Box::new(block) }),
            Err(err) => Err(err),
        }
    }
}

} // verus!
