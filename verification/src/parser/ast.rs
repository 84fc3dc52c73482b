//! The expression tree that the parser builds and the optimizer rewrites.
use vstd::prelude::*;
use crate::value::{Value, ValueView};
use super::tokens::{BinaryOp, UnaryOp};

verus! {

/// An expression.
#[derive(Debug)]
pub enum Expr {
    Literal(Value),
    Variable(String),
    Binary { left: Box<Expr>, operator: BinaryOp, right: Box<Expr> },
    Unary { operator: UnaryOp, operand: Box<Expr> },
    FunctionCall { name: String, args: Vec<Expr> },
    Index { object: Box<Expr>, index: Box<Expr> },
    Member { object: Box<Expr>, member: String },
    ArrayLiteral { elements: Vec<Expr> },
    ObjectLiteral { pairs: Vec<(String, Expr)> },
    Spread { expression: Box<Expr> },
    TryBlock {
        try_body: Vec<String>,
        catch_var: Option<String>,
        catch_body: Vec<String>,
        finally_body: Option<Vec<String>>,
    },
    ThrowStatement { message: Box<Expr> },
}

/// An expression as the specifications see it.
pub enum ExprView {
    Literal(ValueView),
    Variable(Seq<char>),
    Binary(Box<ExprView>, BinaryOp, Box<ExprView>),
    Unary(UnaryOp, Box<ExprView>),
    FunctionCall(Seq<char>, Seq<ExprView>),
    Index(Box<ExprView>, Box<ExprView>),
    Member(Box<ExprView>, Seq<char>),
    ArrayLiteral(Seq<ExprView>),
    ObjectLiteral(Seq<(Seq<char>, ExprView)>),
    Spread(Box<ExprView>),
    TryBlock(Seq<Seq<char>>, Option<Seq<char>>, Seq<Seq<char>>, Option<Seq<Seq<char>>>),
    ThrowStatement(Box<ExprView>),
}

/// The texts of a list of strings.
pub open spec fn texts(v: Seq<String>) -> Seq<Seq<char>> {
    v.map_values(|s: String| s@)
}

/// The views of a list of expressions.
pub open spec fn views(v: Seq<Expr>) -> Seq<ExprView>
    decreases v,
{
    if v.len() == 0 {
        Seq::empty()
    } else {
        seq![v[0].view()] + views(v.subrange(1, v.len() as int))
    }
}

/// The views of a list of named expressions.
pub open spec fn pair_views(v: Seq<(String, Expr)>) -> Seq<(Seq<char>, ExprView)>
    decreases v,
{
    if v.len() == 0 {
        Seq::empty()
    } else {
        seq![(v[0].0@, v[0].1.view())] + pair_views(v.subrange(1, v.len() as int))
    }
}

impl View for Expr {
    type V = ExprView;

    open spec fn view(&self) -> ExprView
        decreases self,
    {
        match self {
            Expr::Literal(v) => ExprView::Literal(v@),
            Expr::Variable(n) => ExprView::Variable(n@),
            Expr::Binary { left, operator, right } => ExprView::Binary(
                Box::new((**left).view()),
                *operator,
                Box::new((**right).view()),
            ),
            Expr::Unary { operator, operand } => ExprView::Unary(*operator, Box::new((**operand).view())),
            Expr::FunctionCall { name, args } => ExprView::FunctionCall(name@, views(args@)),
            Expr::Index { object, index } => ExprView::Index(
                Box::new((**object).view()),
                Box::new((**index).view()),
            ),
            Expr::Member { object, member } => ExprView::Member(Box::new((**object).view()), member@),
            Expr::ArrayLiteral { elements } => ExprView::ArrayLiteral(views(elements@)),
            Expr::ObjectLiteral { pairs } => ExprView::ObjectLiteral(pair_views(pairs@)),
            Expr::Spread { expression } => ExprView::Spread(Box::new((**expression).view())),
            Expr::TryBlock { try_body, catch_var, catch_body, finally_body } => ExprView::TryBlock(
                texts(try_body@),
                match catch_var { Some(c) => Some(c@), None => None },
                texts(catch_body@),
                match finally_body { Some(f) => Some(texts(f@)), None => None },
            ),
            Expr::ThrowStatement { message } => ExprView::ThrowStatement(Box::new((**message).view())),
        }
    }
}


/// `views` maps each expression to its view, keeping the order.
pub proof fn lemma_views(v: Seq<Expr>)
    ensures
        views(v).len() == v.len(),
        forall|i: int| 0 <= i < v.len() ==> #[trigger] views(v)[i] == v[i]@,
    decreases v.len(),
{
    if v.len() == 0 {
        assert(views(v) == Seq::<ExprView>::empty());
    } else {
        let rest = v.subrange(1, v.len() as int);
        lemma_views(rest);
        assert(views(v) == seq![v[0]@] + views(rest));
        assert(views(v).len() == v.len());
        assert forall|i: int| 0 <= i < v.len() implies #[trigger] views(v)[i] == v[i]@ by {
            if i > 0 {
                assert(v.subrange(1, v.len() as int)[i - 1] == v[i]);
            }
        }
    }
}

/// Appending an expression appends its view.
pub proof fn lemma_views_push(v: Seq<Expr>, e: Expr)
    ensures
        views(v.push(e)) == views(v).push(e@),
{
    lemma_views(v);
    lemma_views(v.push(e));
    assert(views(v.push(e)) =~= views(v).push(e@));
}

/// Two lists with the same length and pointwise equal views have equal `views`.
pub proof fn lemma_views_eq(v: Seq<Expr>, w: Seq<ExprView>)
    requires
        v.len() == w.len(),
        forall|i: int| 0 <= i < v.len() ==> #[trigger] v[i]@ == w[i],
    ensures
        views(v) == w,
{
    lemma_views(v);
    assert(views(v) =~= w);
}

/// `pair_views` maps each named expression to its name's text and its view.
pub proof fn lemma_pair_views(v: Seq<(String, Expr)>)
    ensures
        pair_views(v).len() == v.len(),
        forall|i: int| 0 <= i < v.len() ==> #[trigger] pair_views(v)[i] == (v[i].0@, v[i].1@),
    decreases v.len(),
{
    if v.len() == 0 {
        assert(pair_views(v) == Seq::<(Seq<char>, ExprView)>::empty());
    } else {
        let rest = v.subrange(1, v.len() as int);
        lemma_pair_views(rest);
        assert(pair_views(v) == seq![(v[0].0@, v[0].1@)] + pair_views(rest));
        assert forall|i: int| 0 <= i < v.len() implies #[trigger] pair_views(v)[i] == (v[i].0@, v[i].1@) by {
            if i > 0 {
                assert(v.subrange(1, v.len() as int)[i - 1] == v[i]);
            }
        }
    }
}

/// Two lists with the same length and pointwise equal views have equal `pair_views`.
pub proof fn lemma_pair_views_eq(v: Seq<(String, Expr)>, w: Seq<(Seq<char>, ExprView)>)
    requires
        v.len() == w.len(),
        forall|i: int| 0 <= i < v.len() ==> (#[trigger] v[i]).0@ == w[i].0 && v[i].1@ == w[i].1,
    ensures
        pair_views(v) == w,
{
    lemma_pair_views(v);
    assert(pair_views(v) =~= w);
}

/// A copy of a list of strings.
pub fn copy_strings(v: &Vec<String>) -> (r: Vec<String>)
    ensures
        texts(r@) == texts(v@),
{
    let mut r: Vec<String> = Vec::new();
    let mut i: usize = 0;
    while i < v.len()
        invariant
            i <= v.len(),
            r@.len() == i,
            forall|j: int| 0 <= j < i ==> #[trigger] r@[j]@ == v@[j]@,
        decreases v.len() - i,
    {
        r.push(v[i].clone());
        i = i + 1;
    }
    assert(texts(r@) =~= texts(v@));
    r
}

impl Expr {
    /// A deep copy of the expression.
    pub fn copy(&self) -> (r: Expr)
        ensures
            r@ == self@,
        decreases self,
    {
        match self {
            Expr::Literal(v) => Expr::Literal(v.copy()),
            Expr::Variable(n) => Expr::Variable(n.clone()),
            Expr::Binary { left, operator, right } => Expr::Binary {
                left: Box::new((**left).copy()),
                operator: *operator,
                right: Box::new((**right).copy()),
            },
            Expr::Unary { operator, operand } => Expr::Unary {
                operator: *operator,
                operand: Box::new((**operand).copy()),
            },
            Expr::FunctionCall { name, args } => {
                let a = copy_exprs(args);
                Expr::FunctionCall { name: name.clone(), args: a }
            },
            Expr::Index { object, index } => Expr::Index {
                object: Box::new((**object).copy()),
                index: Box::new((**index).copy()),
            },
            Expr::Member { object, member } => Expr::Member {
                object: Box::new((**object).copy()),
                member: member.clone(),
            },
            Expr::ArrayLiteral { elements } => {
                let e = copy_exprs(elements);
                Expr::ArrayLiteral { elements: e }
            },
            Expr::ObjectLiteral { pairs } => {
                let p = copy_pairs(pairs);
                Expr::ObjectLiteral { pairs: p }
            },
            Expr::Spread { expression } => Expr::Spread { expression: Box::new((**expression).copy()) },
            Expr::TryBlock { try_body, catch_var, catch_body, finally_body } => {
                let t = copy_strings(try_body);
                let cv = match catch_var {
                    Some(c) => Some(c.clone()),
                    None => None,
                };
                let cb = copy_strings(catch_body);
                let fb = match finally_body {
                    Some(f) => Some(copy_strings(f)),
                    None => None,
                };
                Expr::TryBlock { try_body: t, catch_var: cv, catch_body: cb, finally_body: fb }
            },
            Expr::ThrowStatement { message } => Expr::ThrowStatement { message: Box::new((**message).copy()) },
        }
    }
}

/// A deep copy of a list of expressions.
pub fn copy_exprs(v: &Vec<Expr>) -> (r: Vec<Expr>)
    ensures
        views(r@) == views(v@),
        r@.len() == v@.len(),
    decreases v,
{
    let mut r: Vec<Expr> = Vec::new();
    let mut i: usize = 0;
    while i < v.len()
        invariant
            i <= v.len(),
            r@.len() == i,
            forall|j: int| 0 <= j < i ==> #[trigger] r@[j]@ == v@[j]@,
        decreases v.len() - i,
    {
        proof { assert(decreases_to!(v => v@[i as int])); }
        r.push(v[i].copy());
        i = i + 1;
    }
    proof {
        lemma_views(v@);
        lemma_views_eq(r@, views(v@));
    }
    r
}

/// A deep copy of a list of named expressions.
pub fn copy_pairs(v: &Vec<(String, Expr)>) -> (r: Vec<(String, Expr)>)
    ensures
        pair_views(r@) == pair_views(v@),
    decreases v,
{
    let mut r: Vec<(String, Expr)> = Vec::new();
    let mut i: usize = 0;
    while i < v.len()
        invariant
            i <= v.len(),
            r@.len() == i,
            forall|j: int| 0 <= j < i ==> (#[trigger] r@[j]).0@ == v@[j].0@ && r@[j].1@ == v@[j].1@,
        decreases v.len() - i,
    {
        proof { assert(decreases_to!(v => v@[i as int].1)); }
        let e = v[i].1.copy();
        r.push((v[i].0.clone(), e));
        i = i + 1;
    }
    proof {
        lemma_pair_views(v@);
        lemma_pair_views_eq(r@, pair_views(v@));
    }
    r
}

} // verus!
