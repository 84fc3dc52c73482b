//! The expression parser: recursive descent over the parser's tokens, with
//! operator precedence, calls with positional, named and spread arguments,
//! indexing, member access, and array and object literals.
//!
//! Arguments of a call are parsed by a second family of functions that
//! stops at `,` and `)`: after an operator, a `,` or `)` ends the argument
//! there (the operator is dropped), except after `*`, `/` and `%`.
use vstd::prelude::*;
use crate::error::DataCodeError;
use crate::text::owned;
use crate::value::{Value, ValueView};
use super::{Parser, step, inside, remaining, past_newlines, expecting, lemma_step, lemma_past_newlines};
use super::expression::PState;
use super::lexer::{lex, char_at, law_words_are_read_whole};
use super::messages::unexpected_message;
use super::tokens::{BinaryOp, Expr, Node, Token, TokenView, UnaryOp, nodes, named_nodes, lemma_nodes_push,
    lemma_named_nodes_push};

verus! {

/// The binary operator that a token stands for at a precedence level:
/// 6 `or`; 5 `and`; 4 `==`, `!=`; 3 `<`, `>`, `<=`, `>=`; 2 `+`, `-`;
/// 1 `*`, `/`, `%`.
pub open spec fn op_for(k: nat, t: TokenView) -> Option<BinaryOp> {
    if k == 6 && t is Or {
        Some(BinaryOp::Or)
    } else if k == 5 && t is And {
        Some(BinaryOp::And)
    } else if k == 4 && t is Equal {
        Some(BinaryOp::Equal)
    } else if k == 4 && t is NotEqual {
        Some(BinaryOp::NotEqual)
    } else if k == 3 && t is Less {
        Some(BinaryOp::Less)
    } else if k == 3 && t is Greater {
        Some(BinaryOp::Greater)
    } else if k == 3 && t is LessEqual {
        Some(BinaryOp::LessEqual)
    } else if k == 3 && t is GreaterEqual {
        Some(BinaryOp::GreaterEqual)
    } else if k == 2 && t is Plus {
        Some(BinaryOp::Add)
    } else if k == 2 && t is Minus {
        Some(BinaryOp::Subtract)
    } else if k == 1 && t is Multiply {
        Some(BinaryOp::Multiply)
    } else if k == 1 && t is Divide {
        Some(BinaryOp::Divide)
    } else if k == 1 && t is Modulo {
        Some(BinaryOp::Modulo)
    } else {
        None
    }
}

/// The state after a binary operator of level `k`: below the level of
/// equality, line feeds after the operator are skipped too.
pub open spec fn after_op(s: Seq<char>, st: PState, k: nat) -> PState {
    if k <= 3 {
        past_newlines(s, step(s, st))
    } else {
        step(s, st)
    }
}

/// Moving past an operator (and the line feeds after it) lowers the measure.
pub proof fn lemma_after_op(s: Seq<char>, st: PState, k: nat)
    requires
        inside(s, st),
        !(st.tok is EOF),
    ensures
        inside(s, after_op(s, st, k)),
        remaining(s, after_op(s, st, k)) < remaining(s, st),
{
    lemma_step(s, st);
    lemma_past_newlines(s, step(s, st));
}

/// The token ends an argument of a call: `,` or `)`.
pub open spec fn ends_argument(t: TokenView) -> bool {
    t is Comma || t is RightParen
}

/// The value that a literal token stands for.
pub open spec fn literal_of(t: TokenView) -> Option<ValueView> {
    match t {
        TokenView::String(x) => Some(ValueView::String(x)),
        TokenView::Number(x) => Some(ValueView::Number(x)),
        TokenView::Bool(b) => Some(ValueView::Bool(b)),
        TokenView::Null => Some(ValueView::Null),
        _ => None,
    }
}

/// The key of an object's pair: a name or a string.
pub open spec fn object_key(t: TokenView) -> Option<Seq<char>> {
    match t {
        TokenView::Identifier(n) => Some(n),
        TokenView::String(x) => Some(x),
        _ => None,
    }
}

/// An expression at precedence level `k` (1 to 6): operands of the next
/// level down (unary expressions below level 1) joined left to right by the
/// operators of level `k`. `None` is a syntax error.
pub open spec fn e_level(s: Seq<char>, st: PState, k: nat) -> Option<(Node, PState)>
    decreases remaining(s, st), 2 * k + 3,
{
    if !inside(s, st) || k == 0 || k > 6 {
        None
    } else {
        let left = if k == 1 { e_unary(s, st) } else { e_level(s, st, (k - 1) as nat) };
        match left {
            None => None,
            Some((l, st2)) => if remaining(s, st2) <= remaining(s, st) {
                e_rest(s, st2, k, l)
            } else {
                None
            },
        }
    }
}

/// The rest of a level-`k` expression whose left operand `l` is parsed.
pub open spec fn e_rest(s: Seq<char>, st: PState, k: nat, l: Node) -> Option<(Node, PState)>
    decreases remaining(s, st), 2 * k + 2,
{
    if !inside(s, st) || k == 0 || k > 6 {
        None
    } else {
        match op_for(k, st.tok) {
            None => Some((l, st)),
            Some(op) => {
                let st1 = after_op(s, st, k);
                proof { lemma_after_op(s, st, k); }
                let right = if k == 1 { e_unary(s, st1) } else { e_level(s, st1, (k - 1) as nat) };
                match right {
                    None => None,
                    Some((r, st2)) => if remaining(s, st2) <= remaining(s, st1) {
                        e_rest(s, st2, k, Node::Binary(Box::new(l), op, Box::new(r)))
                    } else {
                        None
                    },
                }
            },
        }
    }
}

/// A unary expression: `not` or `-` before a unary expression, or a postfix one.
pub open spec fn e_unary(s: Seq<char>, st: PState) -> Option<(Node, PState)>
    decreases remaining(s, st), 3nat,
{
    if !inside(s, st) {
        None
    } else if st.tok is Not || st.tok is Minus {
        let op = if st.tok is Not { UnaryOp::Not } else { UnaryOp::Minus };
        proof { lemma_step(s, st); }
        match e_unary(s, step(s, st)) {
            None => None,
            Some((e, st2)) => Some((Node::Unary(op, Box::new(e)), st2)),
        }
    } else {
        postfix(s, st, false)
    }
}

/// A primary expression followed by calls, indexing and member accesses
/// (an argument's if `in_arg`).
pub open spec fn postfix(s: Seq<char>, st: PState, in_arg: bool) -> Option<(Node, PState)>
    decreases remaining(s, st), 2nat,
{
    match e_primary(s, st) {
        None => None,
        Some((e, st2)) => if remaining(s, st2) < remaining(s, st) {
            postfix_rest(s, st2, e, in_arg)
        } else {
            None
        },
    }
}

/// Calls `(args)` of a name, indexing `[index]` and member accesses `.name`
/// after the expression `e`; in an argument (`in_arg`), an index is parsed
/// as an argument is.
pub open spec fn postfix_rest(s: Seq<char>, st: PState, e: Node, in_arg: bool) -> Option<(Node, PState)>
    decreases remaining(s, st), 1nat,
{
    if !inside(s, st) {
        None
    } else {
        match st.tok {
            TokenView::LeftParen => match e {
                Node::Variable(name) => {
                    let st1 = step(s, st);
                    proof { lemma_step(s, st); }
                    match call_args(s, st1) {
                        None => None,
                        Some((args, named, st2)) => match expecting(s, st2, TokenView::RightParen) {
                            None => None,
                            Some(st3) => if remaining(s, st3) < remaining(s, st) {
                                postfix_rest(s, st3, Node::FunctionCall(name, args, named), in_arg)
                            } else {
                                None
                            },
                        },
                    }
                },
                _ => Some((e, st)),
            },
            TokenView::LeftBracket => {
                let st1 = step(s, st);
                proof { lemma_step(s, st); }
                let index = if in_arg { u_level(s, st1, 6) } else { e_level(s, st1, 6) };
                match index {
                    None => None,
                    Some((i, st2)) => match expecting(s, st2, TokenView::RightBracket) {
                        None => None,
                        Some(st3) => if remaining(s, st3) < remaining(s, st) {
                            postfix_rest(s, st3, Node::Index(Box::new(e), Box::new(i)), in_arg)
                        } else {
                            None
                        },
                    },
                }
            },
            TokenView::Dot => {
                let st1 = step(s, st);
                proof { lemma_step(s, st); }
                match st1.tok {
                    TokenView::Identifier(m) => {
                        proof { lemma_step(s, st1); }
                        postfix_rest(s, step(s, st1), Node::Member(Box::new(e), m), in_arg)
                    },
                    _ => None,
                }
            },
            _ => Some((e, st)),
        }
    }
}

/// The arguments of a call whose `(` is consumed, up to its `)`: the
/// positional arguments, then the named ones. A positional argument after a
/// named one is an error.
pub open spec fn call_args(s: Seq<char>, st: PState) -> Option<(Seq<Node>, Seq<(Seq<char>, Node)>, PState)>
    decreases remaining(s, st), 19nat,
{
    if !inside(s, st) {
        None
    } else {
        let st0 = past_newlines(s, st);
        proof { lemma_past_newlines(s, st); }
        if st0.tok is RightParen {
            Some((Seq::empty(), Seq::empty(), st0))
        } else {
            match fun_arg(s, st0) {
                None => None,
                Some((a, st2)) => if remaining(s, st2) <= remaining(s, st0) && inside(s, st2) {
                    let st3 = past_newlines(s, st2);
                    proof { lemma_past_newlines(s, st2); }
                    match a {
                        Node::NamedArg(n, v) => args_rest(s, st3, Seq::empty(), seq![(n, *v)]),
                        _ => args_rest(s, st3, seq![a], Seq::empty()),
                    }
                } else {
                    None
                },
            }
        }
    }
}

/// More arguments after a `,`, appended to `pos` and `named`.
pub open spec fn args_rest(
    s: Seq<char>,
    st: PState,
    pos: Seq<Node>,
    named: Seq<(Seq<char>, Node)>,
) -> Option<(Seq<Node>, Seq<(Seq<char>, Node)>, PState)>
    decreases remaining(s, st), 18nat,
{
    if !inside(s, st) {
        None
    } else if st.tok is Comma {
        proof {
            lemma_step(s, st);
            lemma_past_newlines(s, step(s, st));
        }
        let st1 = past_newlines(s, step(s, st));
        if st1.tok is RightParen {
            Some((pos, named, st1))
        } else {
            match fun_arg(s, st1) {
                None => None,
                Some((a, st2)) => if remaining(s, st2) <= remaining(s, st1) && inside(s, st2) {
                    let st3 = past_newlines(s, st2);
                    proof { lemma_past_newlines(s, st2); }
                    match a {
                        Node::NamedArg(n, v) => args_rest(s, st3, pos, named.push((n, *v))),
                        _ => if named.len() > 0 {
                            None
                        } else {
                            args_rest(s, st3, pos.push(a), named)
                        },
                    }
                } else {
                    None
                },
            }
        }
    } else {
        Some((pos, named, st))
    }
}

/// One argument: `*expr` (a spread), `name = expr` (a named argument), or
/// an expression.
pub open spec fn fun_arg(s: Seq<char>, st: PState) -> Option<(Node, PState)>
    decreases remaining(s, st), 17nat,
{
    if !inside(s, st) {
        None
    } else if st.tok is Multiply {
        proof { lemma_step(s, st); }
        match u_level(s, step(s, st), 6) {
            None => None,
            Some((e, st2)) => Some((Node::Spread(Box::new(e)), st2)),
        }
    } else {
        named_or_plain(s, st)
    }
}

/// A named argument `name = expr`, or an expression. After a leading name,
/// line feeds are skipped either way; without `=` the expression goes on
/// from that name (see `continuation`).
pub open spec fn named_or_plain(s: Seq<char>, st: PState) -> Option<(Node, PState)>
    decreases remaining(s, st), 16nat,
{
    if !inside(s, st) {
        None
    } else {
        match st.tok {
            TokenView::Identifier(name) => {
                proof {
                    lemma_step(s, st);
                    lemma_past_newlines(s, step(s, st));
                }
                let st1 = past_newlines(s, step(s, st));
                if st1.tok is Assign {
                    proof {
                        lemma_step(s, st1);
                        lemma_past_newlines(s, step(s, st1));
                    }
                    match u_level(s, past_newlines(s, step(s, st1)), 6) {
                        None => None,
                        Some((v, st2)) => Some((Node::NamedArg(name, Box::new(v)), st2)),
                    }
                } else {
                    continuation(s, st1, Node::Variable(name))
                }
            },
            _ => u_level(s, st, 6),
        }
    }
}

/// An argument that began with a name `e` and no `=`: calls, indexing and
/// member accesses, then `*`, `/`, `%` operands, then `+`, `-` operands.
pub open spec fn continuation(s: Seq<char>, st: PState, e: Node) -> Option<(Node, PState)>
    decreases remaining(s, st), 3nat,
{
    match postfix_rest(s, st, e, true) {
        None => None,
        Some((e1, st1)) => if remaining(s, st1) <= remaining(s, st) {
            continued_product(s, st1, e1)
        } else {
            None
        },
    }
}

/// `*`, `/` and `%` operands after `e`, then `+` and `-` ones.
pub open spec fn continued_product(s: Seq<char>, st: PState, e: Node) -> Option<(Node, PState)>
    decreases remaining(s, st), 2nat,
{
    if !inside(s, st) {
        None
    } else {
        match op_for(1, st.tok) {
            Some(op) => {
                let st1 = after_op(s, st, 1);
                proof { lemma_after_op(s, st, 1); }
                match u_unary(s, st1) {
                    None => None,
                    Some((r, st2)) => if remaining(s, st2) <= remaining(s, st1) {
                        continued_product(s, st2, Node::Binary(Box::new(e), op, Box::new(r)))
                    } else {
                        None
                    },
                }
            },
            None => continued_sum(s, st, e),
        }
    }
}

/// `+` and `-` operands after `e`.
pub open spec fn continued_sum(s: Seq<char>, st: PState, e: Node) -> Option<(Node, PState)>
    decreases remaining(s, st), 1nat,
{
    if !inside(s, st) {
        None
    } else {
        match op_for(2, st.tok) {
            Some(op) => {
                let st1 = after_op(s, st, 2);
                proof { lemma_after_op(s, st, 2); }
                match u_level(s, st1, 1) {
                    None => None,
                    Some((r, st2)) => if remaining(s, st2) <= remaining(s, st1) {
                        continued_sum(s, st2, Node::Binary(Box::new(e), op, Box::new(r)))
                    } else {
                        None
                    },
                }
            },
            None => Some((e, st)),
        }
    }
}

/// An argument's expression at precedence level `k`: as `e_level`, but a
/// `,` or `)` right after an operator of level 2 or more ends the argument
/// before that operator's right operand.
pub open spec fn u_level(s: Seq<char>, st: PState, k: nat) -> Option<(Node, PState)>
    decreases remaining(s, st), 2 * k + 3,
{
    if !inside(s, st) || k == 0 || k > 6 {
        None
    } else {
        let left = if k == 1 { u_unary(s, st) } else { u_level(s, st, (k - 1) as nat) };
        match left {
            None => None,
            Some((l, st2)) => if remaining(s, st2) <= remaining(s, st) {
                u_rest(s, st2, k, l)
            } else {
                None
            },
        }
    }
}

/// The rest of an argument's level-`k` expression whose left operand is `l`.
pub open spec fn u_rest(s: Seq<char>, st: PState, k: nat, l: Node) -> Option<(Node, PState)>
    decreases remaining(s, st), 2 * k + 2,
{
    if !inside(s, st) || k == 0 || k > 6 {
        None
    } else {
        match op_for(k, st.tok) {
            None => Some((l, st)),
            Some(op) => {
                let st1 = after_op(s, st, k);
                proof { lemma_after_op(s, st, k); }
                if k >= 2 && ends_argument(st1.tok) {
                    Some((l, st1))
                } else {
                    let right = if k == 1 { u_unary(s, st1) } else { u_level(s, st1, (k - 1) as nat) };
                    match right {
                        None => None,
                        Some((r, st2)) => if remaining(s, st2) <= remaining(s, st1) {
                            u_rest(s, st2, k, Node::Binary(Box::new(l), op, Box::new(r)))
                        } else {
                            None
                        },
                    }
                }
            },
        }
    }
}

/// An argument's unary expression.
pub open spec fn u_unary(s: Seq<char>, st: PState) -> Option<(Node, PState)>
    decreases remaining(s, st), 3nat,
{
    if !inside(s, st) {
        None
    } else if st.tok is Not || st.tok is Minus {
        let op = if st.tok is Not { UnaryOp::Not } else { UnaryOp::Minus };
        proof { lemma_step(s, st); }
        match u_unary(s, step(s, st)) {
            None => None,
            Some((e, st2)) => Some((Node::Unary(op, Box::new(e)), st2)),
        }
    } else {
        postfix(s, st, true)
    }
}

/// A primary expression: a literal, a name, `(expr)`, an array `[a, b]` or
/// an object `{key: value}`, each list with an optional trailing comma and
/// line feeds allowed around its items.
pub open spec fn e_primary(s: Seq<char>, st: PState) -> Option<(Node, PState)>
    decreases remaining(s, st), 0nat,
{
    if !inside(s, st) {
        None
    } else if literal_of(st.tok) is Some {
        Some((Node::Literal(literal_of(st.tok)->0), step(s, st)))
    } else {
        match st.tok {
            TokenView::Identifier(n) => Some((Node::Variable(n), step(s, st))),
            TokenView::LeftParen => {
                proof {
                    lemma_step(s, st);
                    lemma_past_newlines(s, step(s, st));
                }
                match e_level(s, past_newlines(s, step(s, st)), 6) {
                    None => None,
                    Some((e, st2)) => match expecting(s, past_newlines(s, st2), TokenView::RightParen) {
                        None => None,
                        Some(st3) => Some((e, st3)),
                    },
                }
            },
            TokenView::LeftBracket => {
                proof {
                    lemma_step(s, st);
                    lemma_past_newlines(s, step(s, st));
                }
                array_body(s, past_newlines(s, step(s, st)))
            },
            TokenView::LeftBrace => {
                proof {
                    lemma_step(s, st);
                    lemma_past_newlines(s, step(s, st));
                }
                object_body(s, past_newlines(s, step(s, st)))
            },
            _ => None,
        }
    }
}

/// The items of an array whose `[` (and the line feeds after it) is
/// consumed, and its `]`.
pub open spec fn array_body(s: Seq<char>, st: PState) -> Option<(Node, PState)>
    decreases remaining(s, st), 16nat,
{
    if !inside(s, st) {
        None
    } else if st.tok is RightBracket {
        Some((Node::ArrayLiteral(Seq::empty()), step(s, st)))
    } else {
        match e_level(s, st, 6) {
            None => None,
            Some((e, st2)) => if remaining(s, st2) <= remaining(s, st) && inside(s, st2) {
                proof { lemma_past_newlines(s, st2); }
                elements_rest(s, past_newlines(s, st2), seq![e])
            } else {
                None
            },
        }
    }
}

/// The pairs of an object whose `{` (and the line feeds after it) is
/// consumed, and its `}`.
pub open spec fn object_body(s: Seq<char>, st: PState) -> Option<(Node, PState)>
    decreases remaining(s, st), 16nat,
{
    if !inside(s, st) {
        None
    } else if st.tok is RightBrace {
        Some((Node::ObjectLiteral(Seq::empty()), step(s, st)))
    } else {
        match object_key(st.tok) {
            None => None,
            Some(key) => match expecting(s, step(s, st), TokenView::Colon) {
                None => None,
                Some(st3) => if remaining(s, st3) < remaining(s, st) {
                    match e_level(s, st3, 6) {
                        None => None,
                        Some((v, st4)) => if remaining(s, st4) <= remaining(s, st3) && inside(s, st4) {
                            proof { lemma_past_newlines(s, st4); }
                            pairs_rest(s, past_newlines(s, st4), seq![(key, v)])
                        } else {
                            None
                        },
                    }
                } else {
                    None
                },
            },
        }
    }
}

/// More elements of an array after a `,`, appended to `acc`, and its `]`.
pub open spec fn elements_rest(s: Seq<char>, st: PState, acc: Seq<Node>) -> Option<(Node, PState)>
    decreases remaining(s, st), 0nat,
{
    if !inside(s, st) {
        None
    } else if st.tok is Comma {
        proof {
            lemma_step(s, st);
            lemma_past_newlines(s, step(s, st));
        }
        let st1 = past_newlines(s, step(s, st));
        if st1.tok is RightBracket {
            Some((Node::ArrayLiteral(acc), step(s, st1)))
        } else {
            match e_level(s, st1, 6) {
                None => None,
                Some((e, st2)) => if remaining(s, st2) <= remaining(s, st1) && inside(s, st2) {
                    proof { lemma_past_newlines(s, st2); }
                    elements_rest(s, past_newlines(s, st2), acc.push(e))
                } else {
                    None
                },
            }
        }
    } else {
        match expecting(s, st, TokenView::RightBracket) {
            None => None,
            Some(st2) => Some((Node::ArrayLiteral(acc), st2)),
        }
    }
}

/// More pairs of an object after a `,`, appended to `acc`, and its `}`.
pub open spec fn pairs_rest(s: Seq<char>, st: PState, acc: Seq<(Seq<char>, Node)>) -> Option<(Node, PState)>
    decreases remaining(s, st), 0nat,
{
    if !inside(s, st) {
        None
    } else if st.tok is Comma {
        proof {
            lemma_step(s, st);
            lemma_past_newlines(s, step(s, st));
        }
        let st1 = past_newlines(s, step(s, st));
        if st1.tok is RightBrace {
            Some((Node::ObjectLiteral(acc), step(s, st1)))
        } else {
            match object_key(st1.tok) {
                None => None,
                Some(key) => match expecting(s, step(s, st1), TokenView::Colon) {
                    None => None,
                    Some(st3) => if remaining(s, st3) < remaining(s, st) {
                        match e_level(s, st3, 6) {
                            None => None,
                                Some((v, st4)) => if remaining(s, st4) <= remaining(s, st3) && inside(s, st4) {
                                proof { lemma_past_newlines(s, st4); }
                                pairs_rest(s, past_newlines(s, st4), acc.push((key, v)))
                            } else {
                                None
                            },
                        }
                    } else {
                        None
                    },
                },
            }
        }
    } else {
        match expecting(s, st, TokenView::RightBrace) {
            None => None,
            Some(st2) => Some((Node::ObjectLiteral(acc), st2)),
        }
    }
}

/// The result of a parse agrees with its specification: a tree exactly
/// where the specification has one, the parser then standing where it ends.
pub open spec fn agrees_with(r: Result<Expr, DataCodeError>, spec: Option<(Node, PState)>, after: PState) -> bool {
    match r {
        Ok(e) => spec == Some((e@, after)),
        Err(_) => spec is None,
    }
}

/// An expression at level `k`, parsed as an argument's (`in_arg`) or not.
pub open spec fn level_of(s: Seq<char>, st: PState, k: nat, in_arg: bool) -> Option<(Node, PState)> {
    if in_arg { u_level(s, st, k) } else { e_level(s, st, k) }
}

/// The rest of a level-`k` expression, parsed as an argument's or not.
pub open spec fn rest_of(s: Seq<char>, st: PState, k: nat, l: Node, in_arg: bool) -> Option<(Node, PState)> {
    if in_arg { u_rest(s, st, k, l) } else { e_rest(s, st, k, l) }
}

/// A unary expression, parsed as an argument's or not.
pub open spec fn unary_of(s: Seq<char>, st: PState, in_arg: bool) -> Option<(Node, PState)> {
    if in_arg { u_unary(s, st) } else { e_unary(s, st) }
}

/// How a binary operator is written in source text.
pub open spec fn op_symbol(op: BinaryOp) -> Seq<char> {
    match op {
        BinaryOp::Or => seq!['o', 'r'],
        BinaryOp::And => seq!['a', 'n', 'd'],
        BinaryOp::Equal => seq!['=', '='],
        BinaryOp::NotEqual => seq!['!', '='],
        BinaryOp::Less => seq!['<'],
        BinaryOp::Greater => seq!['>'],
        BinaryOp::LessEqual => seq!['<', '='],
        BinaryOp::GreaterEqual => seq!['>', '='],
        BinaryOp::Add => seq!['+'],
        BinaryOp::Subtract => seq!['-'],
        BinaryOp::Multiply => seq!['*'],
        BinaryOp::Divide => seq!['/'],
        BinaryOp::Modulo => seq!['%'],
        BinaryOp::PathJoin => Seq::empty(),
    }
}

/// Each operator token is parsed to the operator written the same way:
/// when the parser reads the token `t` as the binary operator `op` (at any
/// level), the lexer reads the whole written symbol of `op` as that very
/// token. So the token made from `!=` is parsed as `!=`, and `a != b` is a
/// not-equal comparison.
pub proof fn law_operator_tokens_keep_their_symbol(k: nat, t: TokenView)
    requires
        op_for(k, t) is Some,
    ensures
        lex(op_symbol(op_for(k, t)->0), 0) == (t, op_symbol(op_for(k, t)->0).len() as int),
{
    let op = op_for(k, t)->0;
    let w = op_symbol(op);
    if op == BinaryOp::And || op == BinaryOp::Or {
        law_words_are_read_whole(w, 0, w.len() as int);
        assert(w.subrange(0, w.len() as int) =~= w);
    }
    assert(char_at(w, 1) == if w.len() > 1 { Some(w[1]) } else { None::<char> });
}

impl Parser {
    /// The binary operator of level `k` that the current token stands for.
    fn op_at_level(&self, k: u8) -> (r: Option<BinaryOp>)
        ensures
            r == op_for(k as nat, self.state().tok),
    {
        match self.current_token() {
            Token::Or => if k == 6 { Some(BinaryOp::Or) } else { None },
            Token::And => if k == 5 { Some(BinaryOp::And) } else { None },
            Token::Equal => if k == 4 { Some(BinaryOp::Equal) } else { None },
            Token::NotEqual => if k == 4 { Some(BinaryOp::NotEqual) } else { None },
            Token::Less => if k == 3 { Some(BinaryOp::Less) } else { None },
            Token::Greater => if k == 3 { Some(BinaryOp::Greater) } else { None },
            Token::LessEqual => if k == 3 { Some(BinaryOp::LessEqual) } else { None },
            Token::GreaterEqual => if k == 3 { Some(BinaryOp::GreaterEqual) } else { None },
            Token::Plus => if k == 2 { Some(BinaryOp::Add) } else { None },
            Token::Minus => if k == 2 { Some(BinaryOp::Subtract) } else { None },
            Token::Multiply => if k == 1 { Some(BinaryOp::Multiply) } else { None },
            Token::Divide => if k == 1 { Some(BinaryOp::Divide) } else { None },
            Token::Modulo => if k == 1 { Some(BinaryOp::Modulo) } else { None },
            _ => None,
        }
    }

    /// Moves past an operator of level `k`, and past the line feeds after it
    /// below the level of equality.
    fn skip_operator(&mut self, k: u8)
        requires
            old(self).wf(),
        ensures
            final(self).wf(),
            final(self).text() == old(self).text(),
            final(self).state() == after_op(old(self).text(), old(self).state(), k as nat),
    {
        self.advance();
        if k <= 3 {
            self.skip_newlines();
        }
    }

    /// Whether the current token ends an argument.
    fn at_argument_end(&self) -> (r: bool)
        ensures
            r == ends_argument(self.state().tok),
    {
        self.at(&Token::Comma) || self.at(&Token::RightParen)
    }

    /// The name at the current token, if it is one.
    pub(crate) fn identifier_at(&self) -> (r: Option<String>)
        ensures
            match r {
                Some(n) => self.state().tok == TokenView::Identifier(n@),
                None => !(self.state().tok is Identifier),
            },
    {
        match self.current_token() {
            Token::Identifier(n) => Some(n.clone()),
            _ => None,
        }
    }

    /// The value of the literal at the current token, if it is one.
    fn literal_at(&self) -> (r: Option<Value>)
        ensures
            match r {
                Some(v) => literal_of(self.state().tok) == Some(v@),
                None => literal_of(self.state().tok) is None,
            },
    {
        match self.current_token() {
            Token::String(t) => Some(Value::String(t.clone())),
            Token::Number(t) => Some(Value::Number(t.clone())),
            Token::Bool(b) => Some(Value::Bool(*b)),
            Token::Null => Some(Value::Null),
            _ => None,
        }
    }

    /// Parses an expression at level `k` (an argument's if `in_arg`).
    pub(crate) fn parse_level(&mut self, k: u8, in_arg: bool) -> (r: Result<Expr, DataCodeError>)
        requires
            old(self).wf(),
            1 <= k <= 6,
        ensures
            final(self).wf(),
            final(self).text() == old(self).text(),
            agrees_with(r, level_of(old(self).text(), old(self).state(), k as nat, in_arg), final(self).state()),
            r is Ok ==> remaining(old(self).text(), final(self).state()) < remaining(old(self).text(), old(self).state()),
        decreases remaining(old(self).text(), old(self).state()), 2 * k + 3,
    {
        let ghost s = self.text();
        let ghost st0 = self.state();
        proof { self.lemma_inside(); }
        let first = if k == 1 { self.parse_unary(in_arg) } else { self.parse_level(k - 1, in_arg) };
        let mut left = match first {
            Ok(e) => e,
            Err(err) => return Err(err),
        };
        loop
            invariant
                self.wf(),
                self.text() == s,
                s == old(self).text(),
                st0 == old(self).state(),
                1 <= k <= 6,
                remaining(s, self.state()) < remaining(s, st0),
                rest_of(s, self.state(), k as nat, left@, in_arg) == level_of(s, st0, k as nat, in_arg),
            decreases remaining(s, self.state()),
        {
            proof { self.lemma_inside(); }
            let ghost st = self.state();
            match self.op_at_level(k) {
                None => return Ok(left),
                Some(op) => {
                    proof { lemma_after_op(s, st, k as nat); }
                    self.skip_operator(k);
                    if in_arg && k >= 2 && self.at_argument_end() {
                        return Ok(left);
                    }
                    let next = if k == 1 { self.parse_unary(in_arg) } else { self.parse_level(k - 1, in_arg) };
                    match next {
                        Ok(right) => {
                            left = Expr::Binary { left: Box::new(left), operator: op, right: Box::new(right) };
                        },
                        Err(err) => return Err(err),
                    }
                },
            }
        }
    }

    /// Parses a unary expression (an argument's if `in_arg`).
    fn parse_unary(&mut self, in_arg: bool) -> (r: Result<Expr, DataCodeError>)
        requires
            old(self).wf(),
        ensures
            final(self).wf(),
            final(self).text() == old(self).text(),
            agrees_with(r, unary_of(old(self).text(), old(self).state(), in_arg), final(self).state()),
            r is Ok ==> remaining(old(self).text(), final(self).state()) < remaining(old(self).text(), old(self).state()),
        decreases remaining(old(self).text(), old(self).state()), 3nat,
    {
        let ghost s = self.text();
        let ghost st = self.state();
        proof { self.lemma_inside(); }
        let op = if self.at(&Token::Not) {
            Some(UnaryOp::Not)
        } else if self.at(&Token::Minus) {
            Some(UnaryOp::Minus)
        } else {
            None
        };
        match op {
            Some(op) => {
                proof { lemma_step(s, st); }
                self.advance();
                match self.parse_unary(in_arg) {
                    Ok(operand) => Ok(Expr::Unary { operator: op, operand: Box::new(operand) }),
                    Err(err) => Err(err),
                }
            },
            None => self.parse_postfix(in_arg),
        }
    }

    /// Parses a primary expression and the calls, indexing and member
    /// accesses after it.
    fn parse_postfix(&mut self, in_arg: bool) -> (r: Result<Expr, DataCodeError>)
        requires
            old(self).wf(),
        ensures
            final(self).wf(),
            final(self).text() == old(self).text(),
            agrees_with(r, postfix(old(self).text(), old(self).state(), in_arg), final(self).state()),
            r is Ok ==> remaining(old(self).text(), final(self).state()) < remaining(old(self).text(), old(self).state()),
        decreases remaining(old(self).text(), old(self).state()), 2nat,
    {
        let e = match self.parse_primary() {
            Ok(e) => e,
            Err(err) => return Err(err),
        };
        self.parse_postfix_rest(e, in_arg)
    }

    /// Parses the calls, indexing and member accesses after `e`.
    fn parse_postfix_rest(&mut self, e: Expr, in_arg: bool) -> (r: Result<Expr, DataCodeError>)
        requires
            old(self).wf(),
        ensures
            final(self).wf(),
            final(self).text() == old(self).text(),
            agrees_with(r, postfix_rest(old(self).text(), old(self).state(), e@, in_arg), final(self).state()),
            r is Ok ==> remaining(old(self).text(), final(self).state()) <= remaining(old(self).text(), old(self).state()),
        decreases remaining(old(self).text(), old(self).state()), 1nat,
    {
        let ghost s = self.text();
        let ghost st0 = self.state();
        let ghost e0 = e@;
        let mut expr = e;
        loop
            invariant
                self.wf(),
                self.text() == s,
                s == old(self).text(),
                st0 == old(self).state(),
                remaining(s, self.state()) <= remaining(s, st0),
                e0 == e@,
                postfix_rest(s, self.state(), expr@, in_arg) == postfix_rest(s, st0, e0, in_arg),
            decreases remaining(s, self.state()),
        {
            proof { self.lemma_inside(); }
            let ghost st = self.state();
            let kind: u8 = if self.at(&Token::LeftParen) {
                1
            } else if self.at(&Token::LeftBracket) {
                2
            } else if self.at(&Token::Dot) {
                3
            } else {
                0
            };
            if kind == 0 {
                return Ok(expr);
            }
            proof { lemma_step(s, st); }
            if kind == 1 {
                let is_variable = match &expr {
                    Expr::Variable(_) => true,
                    _ => false,
                };
                if !is_variable {
                    return Ok(expr);
                }
                let name = match expr {
                    Expr::Variable(n) => n,
                    _ => String::new(),
                };
                self.advance();
                let (args, named_args) = match self.parse_function_args() {
                    Ok(a) => a,
                    Err(err) => return Err(err),
                };
                match self.expect(Token::RightParen) {
                    Ok(_) => {},
                    Err(err) => return Err(err),
                }
                expr = Expr::FunctionCall { name, args, named_args };
            } else if kind == 2 {
                self.advance();
                let index = match self.parse_level(6, in_arg) {
                    Ok(i) => i,
                    Err(err) => return Err(err),
                };
                match self.expect(Token::RightBracket) {
                    Ok(_) => {},
                    Err(err) => return Err(err),
                }
                expr = Expr::Index { object: Box::new(expr), index: Box::new(index) };
            } else {
                self.advance();
                proof { self.lemma_inside(); }
                let member = self.identifier_at();
                match member {
                    Some(m) => {
                        proof { lemma_step(s, self.state()); }
                        self.advance();
                        expr = Expr::Member { object: Box::new(expr), member: m };
                    },
                    None => {
                        return Err(DataCodeError::syntax_error(owned("Expected identifier after '.'"), 1, 0));
                    },
                }
            }
        }
    }

    /// Parses the arguments of a call whose `(` is consumed, up to its `)`.
    fn parse_function_args(&mut self) -> (r: Result<(Vec<Expr>, Vec<(String, Expr)>), DataCodeError>)
        requires
            old(self).wf(),
        ensures
            final(self).wf(),
            final(self).text() == old(self).text(),
            match r {
                Ok((a, n)) => call_args(old(self).text(), old(self).state())
                    == Some((nodes(a@), named_nodes(n@), final(self).state()))
                    && remaining(old(self).text(), final(self).state()) <= remaining(old(self).text(), old(self).state()),
                Err(_) => call_args(old(self).text(), old(self).state()) is None,
            },
        decreases remaining(old(self).text(), old(self).state()), 19nat,
    {
        let ghost s = self.text();
        let ghost st0 = self.state();
        proof {
            self.lemma_inside();
            lemma_past_newlines(s, st0);
        }
        let mut args: Vec<Expr> = Vec::new();
        let mut named_args: Vec<(String, Expr)> = Vec::new();
        proof {
            assert(nodes(args@) =~= Seq::<Node>::empty());
            assert(named_nodes(named_args@) =~= Seq::<(Seq<char>, Node)>::empty());
        }
        self.skip_newlines();
        let close = self.at(&Token::RightParen);
        if close {
            return Ok((args, named_args));
        }
        let first = match self.parse_function_arg() {
            Ok(a) => a,
            Err(err) => return Err(err),
        };
        proof { self.lemma_inside(); }
        match first {
            Expr::NamedArg { name, value } => {
                proof { lemma_named_nodes_push(named_args@, name, *value); }
                named_args.push((name, *value));
            },
            other => {
                proof { lemma_nodes_push(args@, other); }
                args.push(other);
            },
        }
        proof { lemma_past_newlines(s, self.state()); }
        self.skip_newlines();
        loop
            invariant
                self.wf(),
                self.text() == s,
                s == old(self).text(),
                st0 == old(self).state(),
                remaining(s, self.state()) <= remaining(s, st0),
                args_rest(s, self.state(), nodes(args@), named_nodes(named_args@)) == call_args(s, st0),
            decreases remaining(s, self.state()),
        {
            proof { self.lemma_inside(); }
            let ghost st = self.state();
            let comma = self.at(&Token::Comma);
            if !comma {
                return Ok((args, named_args));
            }
            proof {
                lemma_step(s, st);
                lemma_past_newlines(s, step(s, st));
            }
            self.advance();
            self.skip_newlines();
            let close = self.at(&Token::RightParen);
            if close {
                return Ok((args, named_args));
            }
            let a = match self.parse_function_arg() {
                Ok(a) => a,
                Err(err) => return Err(err),
            };
            proof { self.lemma_inside(); }
            match a {
                Expr::NamedArg { name, value } => {
                    proof { lemma_named_nodes_push(named_args@, name, *value); }
                    named_args.push((name, *value));
                },
                other => {
                    if named_args.len() > 0 {
                        proof { crate::parser::tokens::lemma_named_nodes(named_args@); }
                        return Err(DataCodeError::syntax_error(
                            owned("Positional arguments cannot follow named arguments"),
                            1,
                            0,
                        ));
                    }
                    proof {
                        crate::parser::tokens::lemma_named_nodes(named_args@);
                        lemma_nodes_push(args@, other);
                    }
                    args.push(other);
                },
            }
            proof { lemma_past_newlines(s, self.state()); }
            self.skip_newlines();
        }
    }

    /// Parses one argument of a call.
    fn parse_function_arg(&mut self) -> (r: Result<Expr, DataCodeError>)
        requires
            old(self).wf(),
        ensures
            final(self).wf(),
            final(self).text() == old(self).text(),
            agrees_with(r, fun_arg(old(self).text(), old(self).state()), final(self).state()),
            r is Ok ==> remaining(old(self).text(), final(self).state()) < remaining(old(self).text(), old(self).state()),
        decreases remaining(old(self).text(), old(self).state()), 17nat,
    {
        proof { self.lemma_inside(); }
        let spread = self.at(&Token::Multiply);
        if spread {
            proof { lemma_step(self.text(), self.state()); }
            self.advance();
            match self.parse_level(6, true) {
                Ok(e) => Ok(Expr::Spread { expression: Box::new(e) }),
                Err(err) => Err(err),
            }
        } else {
            self.parse_expression_until_comma_with_named_arg()
        }
    }

    /// Parses a named argument or an argument's expression.
    fn parse_expression_until_comma_with_named_arg(&mut self) -> (r: Result<Expr, DataCodeError>)
        requires
            old(self).wf(),
        ensures
            final(self).wf(),
            final(self).text() == old(self).text(),
            agrees_with(r, named_or_plain(old(self).text(), old(self).state()), final(self).state()),
            r is Ok ==> remaining(old(self).text(), final(self).state()) < remaining(old(self).text(), old(self).state()),
        decreases remaining(old(self).text(), old(self).state()), 16nat,
    {
        let ghost s = self.text();
        let ghost st = self.state();
        proof { self.lemma_inside(); }
        let name = self.identifier_at();
        match name {
            None => self.parse_level(6, true),
            Some(name) => {
                proof {
                    lemma_step(s, st);
                    lemma_past_newlines(s, step(s, st));
                }
                self.advance();
                self.skip_newlines();
                let ghost st1 = self.state();
                let assign = self.at(&Token::Assign);
                if assign {
                    proof {
                        lemma_step(s, st1);
                        lemma_past_newlines(s, step(s, st1));
                    }
                    self.advance();
                    self.skip_newlines();
                    match self.parse_level(6, true) {
                        Ok(v) => Ok(Expr::NamedArg { name, value: Box::new(v) }),
                        Err(err) => Err(err),
                    }
                } else {
                    self.parse_expression_continuation_until_comma(Expr::Variable(name))
                }
            },
        }
    }

    /// Parses the rest of an argument that began with a name and no `=`.
    fn parse_expression_continuation_until_comma(&mut self, e: Expr) -> (r: Result<Expr, DataCodeError>)
        requires
            old(self).wf(),
        ensures
            final(self).wf(),
            final(self).text() == old(self).text(),
            agrees_with(r, continuation(old(self).text(), old(self).state(), e@), final(self).state()),
            r is Ok ==> remaining(old(self).text(), final(self).state()) <= remaining(old(self).text(), old(self).state()),
        decreases remaining(old(self).text(), old(self).state()), 3nat,
    {
        let ghost s = self.text();
        let ghost st0 = self.state();
        let ghost e0 = e@;
        let mut expr = match self.parse_postfix_rest(e, true) {
            Ok(x) => x,
            Err(err) => return Err(err),
        };
        loop
            invariant
                self.wf(),
                self.text() == s,
                s == old(self).text(),
                st0 == old(self).state(),
                remaining(s, self.state()) <= remaining(s, st0),
                e0 == e@,
                continued_product(s, self.state(), expr@) == continuation(s, st0, e0),
            ensures
                self.wf(),
                self.text() == s,
                remaining(s, self.state()) <= remaining(s, st0),
                e0 == e@,
                continued_sum(s, self.state(), expr@) == continuation(s, st0, e0),
            decreases remaining(s, self.state()),
        {
            proof { self.lemma_inside(); }
            let ghost st = self.state();
            match self.op_at_level(1) {
                None => break,
                Some(op) => {
                    proof { lemma_after_op(s, st, 1); }
                    self.skip_operator(1);
                    let right = match self.parse_unary(true) {
                        Ok(x) => x,
                        Err(err) => return Err(err),
                    };
                    expr = Expr::Binary { left: Box::new(expr), operator: op, right: Box::new(right) };
                },
            }
        }
        loop
            invariant
                self.wf(),
                self.text() == s,
                s == old(self).text(),
                st0 == old(self).state(),
                remaining(s, self.state()) <= remaining(s, st0),
                e0 == e@,
                continued_sum(s, self.state(), expr@) == continuation(s, st0, e0),
            decreases remaining(s, self.state()),
        {
            proof { self.lemma_inside(); }
            let ghost st = self.state();
            match self.op_at_level(2) {
                None => return Ok(expr),
                Some(op) => {
                    proof { lemma_after_op(s, st, 2); }
                    self.skip_operator(2);
                    let right = match self.parse_level(1, true) {
                        Ok(x) => x,
                        Err(err) => return Err(err),
                    };
                    expr = Expr::Binary { left: Box::new(expr), operator: op, right: Box::new(right) };
                },
            }
        }
    }

    /// Parses a primary expression.
    fn parse_primary(&mut self) -> (r: Result<Expr, DataCodeError>)
        requires
            old(self).wf(),
        ensures
            final(self).wf(),
            final(self).text() == old(self).text(),
            agrees_with(r, e_primary(old(self).text(), old(self).state()), final(self).state()),
            r is Ok ==> remaining(old(self).text(), final(self).state()) < remaining(old(self).text(), old(self).state()),
        decreases remaining(old(self).text(), old(self).state()), 0nat,
    {
        let ghost s = self.text();
        let ghost st = self.state();
        proof { self.lemma_inside(); }
        let literal = self.literal_at();
        if let Some(v) = literal {
            proof { lemma_step(s, st); }
            self.advance();
            return Ok(Expr::Literal(v));
        }
        let name = self.identifier_at();
        if let Some(n) = name {
            proof { lemma_step(s, st); }
            self.advance();
            return Ok(Expr::Variable(n));
        }
        let kind: u8 = if self.at(&Token::LeftParen) {
            1
        } else if self.at(&Token::LeftBracket) {
            2
        } else if self.at(&Token::LeftBrace) {
            3
        } else {
            0
        };
        if kind == 0 {
            return Err(DataCodeError::syntax_error(unexpected_message(self.current_token()), 1, 0));
        }
        proof {
            lemma_step(s, st);
            lemma_past_newlines(s, step(s, st));
        }
        self.advance();
        self.skip_newlines();
        if kind == 1 {
            let e = match self.parse_level(6, false) {
                Ok(e) => e,
                Err(err) => return Err(err),
            };
            proof {
                self.lemma_inside();
                lemma_past_newlines(s, self.state());
            }
            self.skip_newlines();
            match self.expect(Token::RightParen) {
                Ok(_) => Ok(e),
                Err(err) => Err(err),
            }
        } else if kind == 2 {
            self.parse_array_body()
        } else {
            self.parse_object_body()
        }
    }

    /// Parses the items of an array whose `[` is consumed, and its `]`.
    fn parse_array_body(&mut self) -> (r: Result<Expr, DataCodeError>)
        requires
            old(self).wf(),
        ensures
            final(self).wf(),
            final(self).text() == old(self).text(),
            agrees_with(r, array_body(old(self).text(), old(self).state()), final(self).state()),
            r is Ok ==> remaining(old(self).text(), final(self).state()) <= remaining(old(self).text(), old(self).state()),
        decreases remaining(old(self).text(), old(self).state()), 16nat,
    {
        let ghost s = self.text();
        let ghost st0 = self.state();
        proof { self.lemma_inside(); }
        let mut elements: Vec<Expr> = Vec::new();
        proof { assert(nodes(elements@) =~= Seq::<Node>::empty()); }
        let empty = self.at(&Token::RightBracket);
        if empty {
            proof { lemma_step(s, st0); }
            self.advance();
            return Ok(Expr::ArrayLiteral { elements });
        }
        let first = match self.parse_level(6, false) {
            Ok(e) => e,
            Err(err) => return Err(err),
        };
        proof {
            lemma_nodes_push(elements@, first);
            assert(seq![first@] =~= Seq::<Node>::empty().push(first@));
        }
        elements.push(first);
        proof {
            self.lemma_inside();
            lemma_past_newlines(s, self.state());
        }
        self.skip_newlines();
        loop
            invariant
                self.wf(),
                self.text() == s,
                s == old(self).text(),
                st0 == old(self).state(),
                remaining(s, self.state()) <= remaining(s, st0),
                elements_rest(s, self.state(), nodes(elements@)) == array_body(s, st0),
            decreases remaining(s, self.state()),
        {
            proof { self.lemma_inside(); }
            let ghost st = self.state();
            let comma = self.at(&Token::Comma);
            if !comma {
                return match self.expect(Token::RightBracket) {
                    Ok(_) => Ok(Expr::ArrayLiteral { elements }),
                    Err(err) => Err(err),
                };
            }
            proof {
                lemma_step(s, st);
                lemma_past_newlines(s, step(s, st));
            }
            self.advance();
            self.skip_newlines();
            let close = self.at(&Token::RightBracket);
            if close {
                proof { lemma_step(s, self.state()); }
                self.advance();
                return Ok(Expr::ArrayLiteral { elements });
            }
            let e = match self.parse_level(6, false) {
                Ok(e) => e,
                Err(err) => return Err(err),
            };
            proof { lemma_nodes_push(elements@, e); }
            elements.push(e);
            proof {
                self.lemma_inside();
                lemma_past_newlines(s, self.state());
            }
            self.skip_newlines();
        }
    }

    /// The key of an object's pair at the current token.
    fn object_key_at(&self) -> (r: Option<String>)
        ensures
            match r {
                Some(k) => object_key(self.state().tok) == Some(k@),
                None => object_key(self.state().tok) is None,
            },
    {
        match self.current_token() {
            Token::Identifier(n) => Some(n.clone()),
            Token::String(x) => Some(x.clone()),
            _ => None,
        }
    }

    /// Parses the pairs of an object whose `{` is consumed, and its `}`.
    fn parse_object_body(&mut self) -> (r: Result<Expr, DataCodeError>)
        requires
            old(self).wf(),
        ensures
            final(self).wf(),
            final(self).text() == old(self).text(),
            agrees_with(r, object_body(old(self).text(), old(self).state()), final(self).state()),
            r is Ok ==> remaining(old(self).text(), final(self).state()) <= remaining(old(self).text(), old(self).state()),
        decreases remaining(old(self).text(), old(self).state()), 16nat,
    {
        let ghost s = self.text();
        let ghost st0 = self.state();
        proof { self.lemma_inside(); }
        let mut pairs: Vec<(String, Expr)> = Vec::new();
        proof { assert(named_nodes(pairs@) =~= Seq::<(Seq<char>, Node)>::empty()); }
        let empty = self.at(&Token::RightBrace);
        if empty {
            proof { lemma_step(s, st0); }
            self.advance();
            return Ok(Expr::ObjectLiteral { pairs });
        }
        let key = match self.object_key_at() {
            Some(k) => k,
            None => {
                return Err(DataCodeError::syntax_error(owned("Expected identifier or string as object key"), 1, 0));
            },
        };
        proof { lemma_step(s, st0); }
        self.advance();
        match self.expect(Token::Colon) {
            Ok(_) => {},
            Err(err) => return Err(err),
        }
        let value = match self.parse_level(6, false) {
            Ok(v) => v,
            Err(err) => return Err(err),
        };
        proof {
            lemma_named_nodes_push(pairs@, key, value);
            assert(seq![(key@, value@)] =~= Seq::<(Seq<char>, Node)>::empty().push((key@, value@)));
        }
        pairs.push((key, value));
        proof {
            self.lemma_inside();
            lemma_past_newlines(s, self.state());
        }
        self.skip_newlines();
        loop
            invariant
                self.wf(),
                self.text() == s,
                s == old(self).text(),
                st0 == old(self).state(),
                remaining(s, self.state()) <= remaining(s, st0),
                pairs_rest(s, self.state(), named_nodes(pairs@)) == object_body(s, st0),
            decreases remaining(s, self.state()),
        {
            proof { self.lemma_inside(); }
            let ghost st = self.state();
            let comma = self.at(&Token::Comma);
            if !comma {
                return match self.expect(Token::RightBrace) {
                    Ok(_) => Ok(Expr::ObjectLiteral { pairs }),
                    Err(err) => Err(err),
                };
            }
            proof {
                lemma_step(s, st);
                lemma_past_newlines(s, step(s, st));
            }
            self.advance();
            self.skip_newlines();
            let close = self.at(&Token::RightBrace);
            if close {
                proof { lemma_step(s, self.state()); }
                self.advance();
                return Ok(Expr::ObjectLiteral { pairs });
            }
            let key = match self.object_key_at() {
                Some(k) => k,
                None => {
                    return Err(DataCodeError::syntax_error(owned("Expected identifier or string as object key"), 1, 0));
                },
            };
            proof { lemma_step(s, self.state()); }
            self.advance();
            match self.expect(Token::Colon) {
                Ok(_) => {},
                Err(err) => return Err(err),
            }
            let value = match self.parse_level(6, false) {
                Ok(v) => v,
                Err(err) => return Err(err),
            };
            proof { lemma_named_nodes_push(pairs@, key, value); }
            pairs.push((key, value));
            proof {
                self.lemma_inside();
                lemma_past_newlines(s, self.state());
            }
            self.skip_newlines();
        }
    }
}

/// The expression parser, working on a parser's tokens.
pub struct ExpressionParser<'a> {
    pub parser: &'a mut Parser,
}

impl<'a> ExpressionParser<'a> {
    /// An expression parser on `parser`'s tokens.
    pub fn new(parser: &'a mut Parser) -> (r: Self)
        ensures
            *r.parser == *old(parser),
            *final(parser) == *final(r.parser),
    {
        ExpressionParser { parser }
    }

    /// Parses an expression at the current token: `Ok` with the tree exactly
    /// when `e_level(.., 6)` finds one, the parser then standing where that
    /// parse ends; a syntax error otherwise.
    pub fn parse_expression(&mut self) -> (r: Result<Expr, DataCodeError>)
        requires
            old(self).parser.wf(),
        ensures
            final(self).parser.wf(),
            final(self).parser.text() == old(self).parser.text(),
            agrees_with(r, e_level(old(self).parser.text(), old(self).parser.state(), 6), final(self).parser.state()),
            *final(final(self).parser) == *final(old(self).parser),
    {
        self.parser.parse_level(6, false)
    }
}

} // verus!
