//! Rewrites of an expression tree before it runs: constant folding, merging
//! of nested filters, boolean simplification and merging of nested heads.
use vstd::prelude::*;
use crate::parser::ast::{Expr, ExprView, views, pair_views, lemma_views, lemma_views_push, lemma_pair_views};
use crate::parser::tokens::{BinaryOp, UnaryOp};
use crate::value::{Value, ValueView};
use crate::error::DataCodeError;
use crate::text::{str_eq, push_string};

verus! {

/// The number of nodes of an expression.
pub open spec fn size(e: ExprView) -> nat
    decreases e,
{
    match e {
        ExprView::Binary(l, _, r) => 1 + size(*l) + size(*r),
        ExprView::Unary(_, x) => 1 + size(*x),
        ExprView::FunctionCall(_, args) => 1 + size_all(args),
        ExprView::Index(o, i) => 1 + size(*o) + size(*i),
        ExprView::Member(o, _) => 1 + size(*o),
        ExprView::ArrayLiteral(es) => 1 + size_all(es),
        ExprView::ObjectLiteral(ps) => 1 + size_pairs(ps),
        ExprView::Spread(x) => 1 + size(*x),
        ExprView::ThrowStatement(x) => 1 + size(*x),
        _ => 1,
    }
}

/// The number of nodes of a list of expressions.
pub open spec fn size_all(es: Seq<ExprView>) -> nat
    decreases es,
{
    if es.len() == 0 {
        0
    } else {
        size_all(es.drop_last()) + size(es.last())
    }
}

/// The number of nodes of the values of a list of named expressions.
pub open spec fn size_pairs(ps: Seq<(Seq<char>, ExprView)>) -> nat
    decreases ps,
{
    if ps.len() == 0 {
        0
    } else {
        size_pairs(ps.drop_last()) + size(ps.last().1)
    }
}

/// The number of operator nodes (binary and unary) of an expression.
pub open spec fn op_count(e: ExprView) -> nat
    decreases e,
{
    match e {
        ExprView::Binary(l, _, r) => 1 + op_count(*l) + op_count(*r),
        ExprView::Unary(_, x) => 1 + op_count(*x),
        ExprView::FunctionCall(_, args) => op_count_all(args),
        ExprView::Index(o, i) => op_count(*o) + op_count(*i),
        ExprView::Member(o, _) => op_count(*o),
        ExprView::ArrayLiteral(es) => op_count_all(es),
        ExprView::ObjectLiteral(ps) => op_count_pairs(ps),
        ExprView::Spread(x) => op_count(*x),
        ExprView::ThrowStatement(x) => op_count(*x),
        _ => 0,
    }
}

/// The number of operator nodes of a list of expressions.
pub open spec fn op_count_all(es: Seq<ExprView>) -> nat
    decreases es,
{
    if es.len() == 0 {
        0
    } else {
        op_count_all(es.drop_last()) + op_count(es.last())
    }
}

/// The number of operator nodes of the values of a list of named expressions.
pub open spec fn op_count_pairs(ps: Seq<(Seq<char>, ExprView)>) -> nat
    decreases ps,
{
    if ps.len() == 0 {
        0
    } else {
        op_count_pairs(ps.drop_last()) + op_count(ps.last().1)
    }
}

/// What folding an operator on two literal values may give: `Some` value
/// when it folds, `None` when it does not. On two numbers the arithmetic
/// gives some number and a comparison some truth value (the numbers
/// themselves are computed by a `NumberArithmetic`); a division folds unless
/// the divisor is zero.
pub open spec fn binary_outcome(a: ValueView, op: BinaryOp, b: ValueView, v: Option<ValueView>) -> bool {
    match (a, b) {
        (ValueView::Number(_), ValueView::Number(_)) => match op {
            BinaryOp::Add | BinaryOp::Subtract | BinaryOp::Multiply => v matches Some(ValueView::Number(_)),
            BinaryOp::Divide => v is None || v matches Some(ValueView::Number(_)),
            BinaryOp::Less | BinaryOp::Greater | BinaryOp::LessEqual | BinaryOp::GreaterEqual
            | BinaryOp::Equal | BinaryOp::NotEqual => v matches Some(ValueView::Bool(_)),
            _ => v is None,
        },
        (ValueView::Bool(x), ValueView::Bool(y)) => v == match op {
            BinaryOp::And => Some(ValueView::Bool(x && y)),
            BinaryOp::Or => Some(ValueView::Bool(x || y)),
            BinaryOp::Equal => Some(ValueView::Bool(x == y)),
            BinaryOp::NotEqual => Some(ValueView::Bool(x != y)),
            _ => None,
        },
        (ValueView::String(x), ValueView::String(y)) => v == match op {
            BinaryOp::Add => Some(ValueView::String(x + y)),
            BinaryOp::Equal => Some(ValueView::Bool(x == y)),
            BinaryOp::NotEqual => Some(ValueView::Bool(x != y)),
            _ => None,
        },
        _ => v is None,
    }
}

/// What folding a unary operator on a literal value gives: the negation of
/// a number is some number, `not` of a truth value its opposite; nothing
/// else folds.
pub open spec fn unary_outcome(op: UnaryOp, a: ValueView, v: Option<ValueView>) -> bool {
    match (op, a) {
        (UnaryOp::Minus, ValueView::Number(_)) => v matches Some(ValueView::Number(_)),
        (UnaryOp::Not, ValueView::Bool(b)) => v == Some(ValueView::Bool(!b)),
        _ => v is None,
    }
}

/// The result `r` of folding a binary node whose operands were folded to
/// `a` and `b`: a literal when both are literals and the operation folds,
/// the node itself otherwise.
pub open spec fn binary_folded(a: ExprView, op: BinaryOp, b: ExprView, r: ExprView) -> bool {
    let node = ExprView::Binary(Box::new(a), op, Box::new(b));
    match (a, b) {
        (ExprView::Literal(x), ExprView::Literal(y)) =>
            (binary_outcome(x, op, y, None) && r == node)
            || (r matches ExprView::Literal(v) && binary_outcome(x, op, y, Some(v))),
        _ => r == node,
    }
}

/// The result `r` of folding a unary node whose operand was folded to `a`.
pub open spec fn unary_folded(op: UnaryOp, a: ExprView, r: ExprView) -> bool {
    let node = ExprView::Unary(op, Box::new(a));
    match a {
        ExprView::Literal(x) =>
            (unary_outcome(op, x, None) && r == node)
            || (r matches ExprView::Literal(v) && unary_outcome(op, x, Some(v))),
        _ => r == node,
    }
}

/// How an expression was folded: for each operator node, the foldings of
/// its operands; for each other node that folding enters, the foldings of
/// its parts.
pub enum FoldTrace {
    Binary(Box<FoldTrace>, ExprView, Box<FoldTrace>, ExprView),
    Unary(Box<FoldTrace>, ExprView),
    List(Seq<FoldTrace>),
    Two(Box<FoldTrace>, Box<FoldTrace>),
    One(Box<FoldTrace>),
    Kept,
}

/// `r` is a constant folding of `e` along `t`: operands are folded first,
/// then an operator node whose operands are literals becomes the literal it
/// computes. Function arguments, array elements, index and member
/// expressions and object values are folded in place; other nodes stay.
pub open spec fn folded_by(e: ExprView, t: FoldTrace, r: ExprView) -> bool
    decreases e,
{
    match e {
        ExprView::Binary(l, op, rt) => t matches FoldTrace::Binary(tl, a, tr, b)
            && folded_by(*l, *tl, a) && folded_by(*rt, *tr, b) && binary_folded(a, op, b, r),
        ExprView::Unary(op, x) => t matches FoldTrace::Unary(tx, a)
            && folded_by(*x, *tx, a) && unary_folded(op, a, r),
        ExprView::FunctionCall(name, args) => t matches FoldTrace::List(ts)
            && r matches ExprView::FunctionCall(n2, a2) && n2 == name && folded_list(args, ts, a2),
        ExprView::ArrayLiteral(es) => t matches FoldTrace::List(ts)
            && r matches ExprView::ArrayLiteral(r2) && folded_list(es, ts, r2),
        ExprView::Index(o, i) => t matches FoldTrace::Two(to, ti)
            && r matches ExprView::Index(o2, i2) && folded_by(*o, *to, *o2) && folded_by(*i, *ti, *i2),
        ExprView::Member(o, m) => t matches FoldTrace::One(to)
            && r matches ExprView::Member(o2, m2) && m2 == m && folded_by(*o, *to, *o2),
        ExprView::ObjectLiteral(ps) => t matches FoldTrace::List(ts)
            && r matches ExprView::ObjectLiteral(p2) && folded_pairs(ps, ts, p2),
        _ => r == e,
    }
}

/// Each expression of `rs` is a folding of the one of `es` at its place.
pub open spec fn folded_list(es: Seq<ExprView>, ts: Seq<FoldTrace>, rs: Seq<ExprView>) -> bool
    decreases es,
{
    if es.len() == 0 {
        ts.len() == 0 && rs.len() == 0
    } else {
        &&& ts.len() == es.len() && rs.len() == es.len()
        &&& folded_list(es.drop_last(), ts.drop_last(), rs.drop_last())
        &&& folded_by(es.last(), ts.last(), rs.last())
    }
}

/// Each pair of `rs` keeps the name of the one of `ps` at its place and
/// folds its value.
pub open spec fn folded_pairs(ps: Seq<(Seq<char>, ExprView)>, ts: Seq<FoldTrace>, rs: Seq<(Seq<char>, ExprView)>) -> bool
    decreases ps,
{
    if ps.len() == 0 {
        ts.len() == 0 && rs.len() == 0
    } else {
        &&& ts.len() == ps.len() && rs.len() == ps.len()
        &&& folded_pairs(ps.drop_last(), ts.drop_last(), rs.drop_last())
        &&& rs.last().0 == ps.last().0
        &&& folded_by(ps.last().1, ts.last(), rs.last().1)
    }
}

/// `r` is a constant folding of `e`.
pub open spec fn folded(e: ExprView, r: ExprView) -> bool {
    exists|t: FoldTrace| folded_by(e, t, r)
}

/// The arguments of `e` when it is a call of `name` with `n` arguments.
pub open spec fn call_args(e: ExprView, name: Seq<char>, n: nat) -> Option<Seq<ExprView>> {
    match e {
        ExprView::FunctionCall(f, args) => if f == name && args.len() == n { Some(args) } else { None },
        _ => None,
    }
}

/// Merging of nested filters, with the number of merges: a call
/// `table_filter(table_filter(data, c1), c2)` becomes
/// `table_filter(data, c1 and c2)` (its parts are not merged further);
/// other calls, operator nodes, index and member expressions, arrays and
/// objects have their parts merged; other nodes stay.
pub open spec fn combined(e: ExprView) -> (ExprView, nat)
    decreases e,
{
    match e {
        ExprView::FunctionCall(name, args) =>
            if name == "table_filter"@ && args.len() == 2 && call_args(args[0], "table_filter"@, 2) is Some {
                let inner = call_args(args[0], "table_filter"@, 2)->0;
                (ExprView::FunctionCall(name, seq![
                    inner[0],
                    ExprView::Binary(Box::new(inner[1]), BinaryOp::And, Box::new(args[1])),
                ]), 1)
            } else {
                let (a, n) = combined_list(args);
                (ExprView::FunctionCall(name, a), n)
            },
        ExprView::Binary(l, op, r) =>
            (ExprView::Binary(Box::new(combined(*l).0), op, Box::new(combined(*r).0)), combined(*l).1 + combined(*r).1),
        ExprView::Unary(op, x) => (ExprView::Unary(op, Box::new(combined(*x).0)), combined(*x).1),
        ExprView::Index(o, i) =>
            (ExprView::Index(Box::new(combined(*o).0), Box::new(combined(*i).0)), combined(*o).1 + combined(*i).1),
        ExprView::Member(o, m) => (ExprView::Member(Box::new(combined(*o).0), m), combined(*o).1),
        ExprView::ArrayLiteral(es) => (ExprView::ArrayLiteral(combined_list(es).0), combined_list(es).1),
        ExprView::ObjectLiteral(ps) => (ExprView::ObjectLiteral(combined_pairs(ps).0), combined_pairs(ps).1),
        _ => (e, 0),
    }
}

/// `combined` on each expression of a list, with the total number of merges.
pub open spec fn combined_list(es: Seq<ExprView>) -> (Seq<ExprView>, nat)
    decreases es,
{
    if es.len() == 0 {
        (Seq::empty(), 0)
    } else {
        let (a, n) = combined_list(es.drop_last());
        let (b, k) = combined(es.last());
        (a.push(b), n + k)
    }
}

/// `combined` on the value of each named expression of a list.
pub open spec fn combined_pairs(ps: Seq<(Seq<char>, ExprView)>) -> (Seq<(Seq<char>, ExprView)>, nat)
    decreases ps,
{
    if ps.len() == 0 {
        (Seq::empty(), 0)
    } else {
        let (a, n) = combined_pairs(ps.drop_last());
        let (b, k) = combined(ps.last().1);
        (a.push((ps.last().0, b)), n + k)
    }
}

/// The literal `true` or `false`.
pub open spec fn bool_literal(b: bool) -> ExprView {
    ExprView::Literal(ValueView::Bool(b))
}

/// The operand of `e` when it is a `not`.
pub open spec fn negated(e: ExprView) -> Option<ExprView> {
    match e {
        ExprView::Unary(UnaryOp::Not, inner) => Some(*inner),
        _ => None,
    }
}

/// Boolean simplification, with the number of simplifications: after the
/// operands of an `and` or `or` are simplified, `true and x`, `x and true`,
/// `false or x` and `x or false` become `x`, `false and x` and `x and false`
/// become `false`, `true or x` and `x or true` become `true` (the first
/// rule that applies, in that order); `not not x` becomes `x`. Operator
/// nodes are entered; other nodes stay.
pub open spec fn simplified(e: ExprView) -> (ExprView, nat)
    decreases e,
{
    match e {
        ExprView::Binary(l, op, r) => {
            let (a, n1) = simplified(*l);
            let (b, n2) = simplified(*r);
            let n = n1 + n2;
            let node = ExprView::Binary(Box::new(a), op, Box::new(b));
            match op {
                BinaryOp::And =>
                    if a == bool_literal(true) { (b, n + 1) }
                    else if b == bool_literal(true) { (a, n + 1) }
                    else if a == bool_literal(false) { (bool_literal(false), n + 1) }
                    else if b == bool_literal(false) { (bool_literal(false), n + 1) }
                    else { (node, n) },
                BinaryOp::Or =>
                    if a == bool_literal(false) { (b, n + 1) }
                    else if b == bool_literal(false) { (a, n + 1) }
                    else if a == bool_literal(true) { (bool_literal(true), n + 1) }
                    else if b == bool_literal(true) { (bool_literal(true), n + 1) }
                    else { (node, n) },
                _ => (node, n),
            }
        },
        ExprView::Unary(op, x) => {
            let (a, n) = simplified(*x);
            if op == UnaryOp::Not && negated(a) is Some {
                (negated(a)->0, n + 1)
            } else {
                (ExprView::Unary(op, Box::new(a)), n)
            }
        },
        _ => (e, 0),
    }
}

/// The truth an expression has when its variables hold the truth values
/// `env`: a boolean literal its value, a variable its value in `env`, and
/// `and`, `or` and `not` as in logic; `None` for anything else, or a
/// variable without a value.
pub open spec fn bool_meaning(e: ExprView, env: Map<Seq<char>, bool>) -> Option<bool>
    decreases e,
{
    match e {
        ExprView::Literal(ValueView::Bool(b)) => Some(b),
        ExprView::Variable(n) => if env.contains_key(n) { Some(env[n]) } else { None },
        ExprView::Binary(l, op, r) => match (bool_meaning(*l, env), bool_meaning(*r, env)) {
            (Some(a), Some(b)) => if op == BinaryOp::And {
                Some(a && b)
            } else if op == BinaryOp::Or {
                Some(a || b)
            } else {
                None
            },
            _ => None,
        },
        ExprView::Unary(UnaryOp::Not, x) => match bool_meaning(*x, env) {
            Some(a) => Some(!a),
            None => None,
        },
        _ => None,
    }
}

/// Boolean simplification keeps the meaning: whenever an expression made of
/// boolean literals, variables, `and`, `or` and `not` has a truth for the
/// truth values of its variables, its simplification has the same truth.
/// So `false or x` keeps the truth of `x`, and `true and x` too.
pub proof fn law_simplification_keeps_meaning(e: ExprView, env: Map<Seq<char>, bool>)
    requires
        bool_meaning(e, env) is Some,
    ensures
        bool_meaning(simplified(e).0, env) == bool_meaning(e, env),
    decreases e,
{
    match e {
        ExprView::Binary(l, op, r) => {
            law_simplification_keeps_meaning(*l, env);
            law_simplification_keeps_meaning(*r, env);
        },
        ExprView::Unary(op, x) => {
            law_simplification_keeps_meaning(*x, env);
        },
        _ => {},
    }
}

/// The two numbers of a nested head call `table_head(table_head(data, n), m)`.
pub open spec fn nested_head(name: Seq<char>, args: Seq<ExprView>) -> bool {
    &&& name == "table_head"@
    &&& args.len() == 2
    &&& call_args(args[0], "table_head"@, 2) matches Some(inner)
        && inner[1] matches ExprView::Literal(ValueView::Number(_))
        && args[1] matches ExprView::Literal(ValueView::Number(_))
}

/// `r` merges the nested heads of `e`: `table_head(table_head(data, n), m)`
/// becomes `table_head(data, k)` with `k` the smaller of `n` and `m` (which
/// one is smaller is for the number arithmetic to say), its parts not
/// entered; the arguments of other calls are merged in place; other nodes
/// stay.
pub open spec fn heads_merged(e: ExprView, r: ExprView) -> bool
    decreases e,
{
    match e {
        ExprView::FunctionCall(name, args) =>
            if nested_head(name, args) {
                let inner = call_args(args[0], "table_head"@, 2)->0;
                r == ExprView::FunctionCall(name, seq![inner[0], inner[1]])
                || r == ExprView::FunctionCall(name, seq![inner[0], args[1]])
            } else {
                r matches ExprView::FunctionCall(n2, a2) && n2 == name && heads_merged_list(args, a2)
            },
        _ => r == e,
    }
}

/// `heads_merged` on each expression of a list.
pub open spec fn heads_merged_list(es: Seq<ExprView>, rs: Seq<ExprView>) -> bool
    decreases es,
{
    if es.len() == 0 {
        rs.len() == 0
    } else {
        &&& rs.len() == es.len()
        &&& heads_merged_list(es.drop_last(), rs.drop_last())
        &&& heads_merged(es.last(), rs.last())
    }
}

/// The number of nested heads that `heads_merged` merges.
pub open spec fn head_merges(e: ExprView) -> nat
    decreases e,
{
    match e {
        ExprView::FunctionCall(name, args) => if nested_head(name, args) { 1 } else { head_merges_list(args) },
        _ => 0,
    }
}

/// `head_merges` over a list.
pub open spec fn head_merges_list(es: Seq<ExprView>) -> nat
    decreases es,
{
    if es.len() == 0 {
        0
    } else {
        head_merges_list(es.drop_last()) + head_merges(es.last())
    }
}

/// `r` is what the whole optimization makes of `e`, with `n` rewrites:
/// constant folding, then merging of nested filters, then dead-code removal
/// (which changes nothing), then boolean simplification, then merging of
/// nested heads.
pub open spec fn optimized(e: ExprView, r: ExprView, n: nat) -> bool {
    exists|t: FoldTrace, e1: ExprView| #[trigger] folded_by(e, t, e1) && rewritten_after_folding(e, e1, r, n)
}

/// The rewrites that follow constant folding of `e` to `e1`.
pub open spec fn rewritten_after_folding(e: ExprView, e1: ExprView, r: ExprView, n: nat) -> bool {
    let (e2, n2) = combined(e1);
    let (e4, n4) = simplified(e2);
    &&& op_count(e1) <= op_count(e)
    &&& heads_merged(e4, r)
    &&& n == (op_count(e) - op_count(e1)) + n2 + n4 + head_merges(e4)
}

/// Optimizing a literal or a variable rewrites nothing: it comes back as it
/// is and adds no rewrite to the count.
pub proof fn law_leaves_are_not_rewritten(e: ExprView, r: ExprView, n: nat)
    requires
        e is Literal || e is Variable,
        optimized(e, r, n),
    ensures
        r == e,
        n == 0,
{
    let (t, e1) = choose|t: FoldTrace, e1: ExprView| #[trigger] folded_by(e, t, e1) && rewritten_after_folding(e, e1, r, n);
    assert(e1 == e);
}

/// Appending an expression adds its nodes and its operator nodes.
pub proof fn lemma_counts_push(es: Seq<ExprView>, e: ExprView)
    ensures
        size_all(es.push(e)) == size_all(es) + size(e),
        op_count_all(es.push(e)) == op_count_all(es) + op_count(e),
{
    assert(es.push(e).drop_last() =~= es);
}

/// Appending a named expression adds the nodes and operator nodes of its value.
pub proof fn lemma_pair_counts_push(ps: Seq<(Seq<char>, ExprView)>, p: (Seq<char>, ExprView))
    ensures
        size_pairs(ps.push(p)) == size_pairs(ps) + size(p.1),
        op_count_pairs(ps.push(p)) == op_count_pairs(ps) + op_count(p.1),
{
    assert(ps.push(p).drop_last() =~= ps);
}

/// A list of two expressions has the nodes of both.
pub proof fn lemma_size_all_two(es: Seq<ExprView>)
    requires
        es.len() == 2,
    ensures
        size_all(es) == size(es[0]) + size(es[1]),
{
    let e: Seq<ExprView> = Seq::empty();
    lemma_counts_push(e, es[0]);
    lemma_counts_push(e.push(es[0]), es[1]);
    assert(e.push(es[0]).push(es[1]) =~= es);
}

/// A prefix of a list has no more nodes than the list, and one element
/// more adds that element's nodes.
pub proof fn lemma_counts_prefix(es: Seq<ExprView>, k: int)
    requires
        0 <= k <= es.len(),
    ensures
        size_all(es.take(k)) <= size_all(es),
        k < es.len() ==> es.take(k + 1) == es.take(k).push(es[k]),
    decreases es.len(),
{
    if k < es.len() {
        assert(es.take(k + 1) =~= es.take(k).push(es[k]));
        lemma_counts_prefix(es.drop_last(), k);
        assert(es.drop_last().take(k) =~= es.take(k));
    } else {
        assert(es.take(k) =~= es);
    }
}

/// The same for lists of named expressions.
pub proof fn lemma_pair_counts_prefix(ps: Seq<(Seq<char>, ExprView)>, k: int)
    requires
        0 <= k <= ps.len(),
    ensures
        size_pairs(ps.take(k)) <= size_pairs(ps),
        k < ps.len() ==> ps.take(k + 1) == ps.take(k).push(ps[k]),
    decreases ps.len(),
{
    if k < ps.len() {
        assert(ps.take(k + 1) =~= ps.take(k).push(ps[k]));
        lemma_pair_counts_prefix(ps.drop_last(), k);
        assert(ps.drop_last().take(k) =~= ps.take(k));
    } else {
        assert(ps.take(k) =~= ps);
    }
}

/// Whether `e` is the literal `b`.
fn is_bool_literal(e: &Expr, b: bool) -> (r: bool)
    ensures
        r == (e@ == bool_literal(b)),
{
    match e {
        Expr::Literal(Value::Bool(x)) => *x == b,
        _ => false,
    }
}

/// Dead-code removal: no rule removes anything, so the expression comes
/// back as it is.
fn remove_dead_code(e: Expr) -> (r: Expr)
    ensures
        r@ == e@,
{
    e
}

/// The arithmetic of numbers, on their decimal texts.
///
/// Folding a number expression computes in floating point, which this
/// library does not hold; an implementation of this trait does it. Nothing
/// is assumed of what it returns: the contracts of the optimizer state what
/// holds whatever it returns.
pub trait NumberArithmetic {
    /// The text of `a op b` for `op` one of `+ - * /`.
    fn arithmetic(&self, a: &str, op: BinaryOp, b: &str) -> String;

    /// Whether the number is zero.
    fn is_zero(&self, a: &str) -> bool;

    /// Whether `a op b` holds for `op` a comparison; `==` and `!=` compare
    /// within machine epsilon.
    fn compare(&self, a: &str, op: BinaryOp, b: &str) -> bool;

    /// The text of `-a`.
    fn negate(&self, a: &str) -> String;

    /// Whether the smaller of the two numbers is the second one.
    fn second_is_smaller(&self, a: &str, b: &str) -> bool;
}

/// The view of an optional value.
pub open spec fn value_opt(v: Option<Value>) -> Option<ValueView> {
    match v {
        Some(x) => Some(x@),
        None => None,
    }
}

/// The AST optimizer: applies the rewrites in turn and counts each one it
/// makes.
pub struct ASTOptimizer<N: NumberArithmetic> {
    optimization_count: usize,
    numbers: N,
}

impl<N: NumberArithmetic> ASTOptimizer<N> {
    /// The number of rewrites made so far.
    pub closed spec fn count(&self) -> nat {
        self.optimization_count as nat
    }

    /// An optimizer that has made no rewrite yet, computing numbers with
    /// `numbers`.
    pub fn new(numbers: N) -> (r: Self)
        ensures
            r.count() == 0,
    {
        ASTOptimizer { optimization_count: 0, numbers }
    }

    /// The number of rewrites made so far.
    pub fn get_optimization_count(&self) -> (r: usize)
        ensures
            r == self.count(),
    {
        self.optimization_count
    }

    fn fold_value_binary(&self, a: &Value, op: BinaryOp, b: &Value) -> (r: Option<Value>)
        ensures
            binary_outcome(a@, op, b@, value_opt(r)),
    {
        match (a, b) {
            (Value::Number(x), Value::Number(y)) => match op {
                BinaryOp::Add | BinaryOp::Subtract | BinaryOp::Multiply =>
                    Some(Value::Number(self.numbers.arithmetic(x.as_str(), op, y.as_str()))),
                BinaryOp::Divide => if self.numbers.is_zero(y.as_str()) {
                    None
                } else {
                    Some(Value::Number(self.numbers.arithmetic(x.as_str(), op, y.as_str())))
                },
                BinaryOp::Less | BinaryOp::Greater | BinaryOp::LessEqual | BinaryOp::GreaterEqual
                | BinaryOp::Equal | BinaryOp::NotEqual =>
                    Some(Value::Bool(self.numbers.compare(x.as_str(), op, y.as_str()))),
                _ => None,
            },
            (Value::Bool(x), Value::Bool(y)) => match op {
                BinaryOp::And => Some(Value::Bool(*x && *y)),
                BinaryOp::Or => Some(Value::Bool(*x || *y)),
                BinaryOp::Equal => Some(Value::Bool(*x == *y)),
                BinaryOp::NotEqual => Some(Value::Bool(*x != *y)),
                _ => None,
            },
            (Value::String(x), Value::String(y)) => match op {
                BinaryOp::Add => {
                    let mut s = x.clone();
                    push_string(&mut s, y.as_str());
                    Some(Value::String(s))
                },
                BinaryOp::Equal => Some(Value::Bool(str_eq(x.as_str(), y.as_str()))),
                BinaryOp::NotEqual => Some(Value::Bool(!str_eq(x.as_str(), y.as_str()))),
                _ => None,
            },
            _ => None,
        }
    }

    /// Optimizes an expression (see `optimized`); always succeeds. The count
    /// grows by the number of rewrites.
    pub fn optimize(&mut self, expr: Expr) -> (r: Result<Expr, DataCodeError>)
        requires
            old(self).count() + 2 * size(expr@) <= usize::MAX,
        ensures
            r matches Ok(x) && final(self).count() >= old(self).count()
                && optimized(expr@, x@, (final(self).count() - old(self).count()) as nat),
    {
        let ghost c0 = self.count();
        let (e1, Ghost(t)) = self.fold_constants(&expr);
        let ghost c1 = self.count();
        let e2 = self.combine_filters(&e1);
        let ghost c2 = self.count();
        let e3 = remove_dead_code(e2);
        let e4 = self.simplify_boolean_expressions(&e3);
        let ghost c4 = self.count();
        let r = self.optimize_function_calls(&e4);
        assert(folded_by(expr@, t, e1@) && rewritten_after_folding(expr@, e1@, r@, (self.count() - c0) as nat));
        Ok(r)
    }

    /// Boolean simplification (see `simplified`), counting each rule applied.
    fn simplify_boolean_expressions(&mut self, e: &Expr) -> (r: Expr)
        requires
            old(self).count() + size(e@) <= usize::MAX,
        ensures
            r@ == simplified(e@).0,
            final(self).count() == old(self).count() + simplified(e@).1,
            final(self).count() + size(r@) <= old(self).count() + size(e@),
        decreases e,
    {
        match e {
            Expr::Binary { left, operator, right } => {
                let a = self.simplify_boolean_expressions(left);
                let b = self.simplify_boolean_expressions(right);
                match operator {
                    BinaryOp::And => {
                        if is_bool_literal(&a, true) {
                            self.optimization_count = self.optimization_count + 1;
                            return b;
                        }
                        if is_bool_literal(&b, true) {
                            self.optimization_count = self.optimization_count + 1;
                            return a;
                        }
                        if is_bool_literal(&a, false) || is_bool_literal(&b, false) {
                            self.optimization_count = self.optimization_count + 1;
                            return Expr::Literal(Value::Bool(false));
                        }
                    },
                    BinaryOp::Or => {
                        if is_bool_literal(&a, false) {
                            self.optimization_count = self.optimization_count + 1;
                            return b;
                        }
                        if is_bool_literal(&b, false) {
                            self.optimization_count = self.optimization_count + 1;
                            return a;
                        }
                        if is_bool_literal(&a, true) || is_bool_literal(&b, true) {
                            self.optimization_count = self.optimization_count + 1;
                            return Expr::Literal(Value::Bool(true));
                        }
                    },
                    _ => {},
                }
                Expr::Binary { left: Box::new(a), operator: *operator, right: Box::new(b) }
            },
            Expr::Unary { operator, operand } => {
                let a = self.simplify_boolean_expressions(operand);
                if *operator == UnaryOp::Not {
                    match a {
                        Expr::Unary { operator: UnaryOp::Not, operand: inner } => {
                            self.optimization_count = self.optimization_count + 1;
                            return *inner;
                        },
                        other => {
                            return Expr::Unary { operator: *operator, operand: Box::new(other) };
                        },
                    }
                }
                Expr::Unary { operator: *operator, operand: Box::new(a) }
            },
            _ => e.copy(),
        }
    }

    /// Merging of nested heads (see `heads_merged`), counting each merge.
    fn optimize_function_calls(&mut self, e: &Expr) -> (r: Expr)
        requires
            old(self).count() + size(e@) <= usize::MAX,
        ensures
            heads_merged(e@, r@),
            final(self).count() == old(self).count() + head_merges(e@),
            final(self).count() + size(r@) <= old(self).count() + size(e@),
        decreases e,
    {
        match e {
            Expr::FunctionCall { name, args } => {
                proof {
                    lemma_views(args@);
                }
                if str_eq(name.as_str(), "table_head") && args.len() == 2 {
                    match &args[0] {
                        Expr::FunctionCall { name: inner_name, args: inner_args } => {
                            proof {
                                lemma_views(inner_args@);
                            }
                            if str_eq(inner_name.as_str(), "table_head") && inner_args.len() == 2 {
                                match (&inner_args[1], &args[1]) {
                                    (Expr::Literal(Value::Number(n)), Expr::Literal(Value::Number(m))) => {
                                        let smaller = if self.numbers.second_is_smaller(n.as_str(), m.as_str()) {
                                            args[1].copy()
                                        } else {
                                            inner_args[1].copy()
                                        };
                                        let new_args = vec![inner_args[0].copy(), smaller];
                                        proof {
                                            lemma_views(new_args@);
                                            let iv = views(inner_args@);
                                            let av = views(args@);
                                            assert(views(new_args@) =~= seq![iv[0], views(new_args@)[1]]);
                                            lemma_size_all_two(views(new_args@));
                                            lemma_size_all_two(iv);
                                            lemma_size_all_two(av);
                                        }
                                        self.optimization_count = self.optimization_count + 1;
                                        return Expr::FunctionCall { name: name.clone(), args: new_args };
                                    },
                                    _ => {},
                                }
                            }
                        },
                        _ => {},
                    }
                }
                let a = self.heads_list(args);
                Expr::FunctionCall { name: name.clone(), args: a }
            },
            _ => e.copy(),
        }
    }

    fn heads_list(&mut self, v: &Vec<Expr>) -> (r: Vec<Expr>)
        requires
            old(self).count() + size_all(views(v@)) <= usize::MAX,
        ensures
            heads_merged_list(views(v@), views(r@)),
            final(self).count() == old(self).count() + head_merges_list(views(v@)),
            final(self).count() + size_all(views(r@)) <= old(self).count() + size_all(views(v@)),
        decreases v,
    {
        let ghost es = views(v@);
        let ghost c0 = self.count();
        proof {
            lemma_views(v@);
        }
        let mut out: Vec<Expr> = Vec::new();
        let mut i: usize = 0;
        while i < v.len()
            invariant
                i <= v.len(),
                es == views(v@),
                es.len() == v@.len(),
                forall|j: int| 0 <= j < v@.len() ==> #[trigger] es[j] == v@[j]@,
                out@.len() == i,
                heads_merged_list(es.take(i as int), views(out@)),
                self.count() == c0 + head_merges_list(es.take(i as int)),
                self.count() + size_all(views(out@)) <= c0 + size_all(es.take(i as int)),
                c0 + size_all(es) <= usize::MAX,
            decreases v.len() - i,
        {
            proof {
                assert(decreases_to!(v => v@[i as int]));
                lemma_counts_prefix(es, i + 1);
                lemma_counts_prefix(es, i as int);
                lemma_counts_push(es.take(i as int), es[i as int]);
            }
            let x = self.optimize_function_calls(&v[i]);
            proof {
                lemma_views_push(out@, x);
                lemma_counts_push(views(out@), x@);
                assert(es.take(i + 1).drop_last() =~= es.take(i as int));
                assert(views(out@).push(x@).drop_last() =~= views(out@));
            }
            out.push(x);
            i = i + 1;
        }
        proof {
            assert(es.take(i as int) =~= es);
        }
        out
    }

    /// Constant folding (see `folded_by`); each folded operator node counts
    /// as one rewrite, so the count grows by the operator nodes folded away.
    fn fold_constants(&mut self, e: &Expr) -> (res: (Expr, Ghost<FoldTrace>))
        requires
            old(self).count() + size(e@) <= usize::MAX,
        ensures
            folded_by(e@, res.1@, res.0@),
            op_count(res.0@) <= op_count(e@),
            final(self).count() == old(self).count() + op_count(e@) - op_count(res.0@),
            final(self).count() + size(res.0@) <= old(self).count() + size(e@),
        decreases e,
    {
        match e {
            Expr::Binary { left, operator, right } => {
                let (a, Ghost(ta)) = self.fold_constants(left);
                let (b, Ghost(tb)) = self.fold_constants(right);
                let value = match (&a, &b) {
                    (Expr::Literal(x), Expr::Literal(y)) => self.fold_value_binary(x, *operator, y),
                    _ => None,
                };
                let ghost t = FoldTrace::Binary(Box::new(ta), a@, Box::new(tb), b@);
                let r = match value {
                    Some(v) => {
                        self.optimization_count = self.optimization_count + 1;
                        Expr::Literal(v)
                    },
                    None => Expr::Binary { left: Box::new(a), operator: *operator, right: Box::new(b) },
                };
                (r, Ghost(t))
            },
            Expr::Unary { operator, operand } => {
                let (a, Ghost(ta)) = self.fold_constants(operand);
                let value = match &a {
                    Expr::Literal(x) => self.fold_value_unary(*operator, x),
                    _ => None,
                };
                let ghost t = FoldTrace::Unary(Box::new(ta), a@);
                let r = match value {
                    Some(v) => {
                        self.optimization_count = self.optimization_count + 1;
                        Expr::Literal(v)
                    },
                    None => Expr::Unary { operator: *operator, operand: Box::new(a) },
                };
                (r, Ghost(t))
            },
            Expr::FunctionCall { name, args } => {
                let (a, Ghost(ts)) = self.fold_list(args);
                (Expr::FunctionCall { name: name.clone(), args: a }, Ghost(FoldTrace::List(ts)))
            },
            Expr::ArrayLiteral { elements } => {
                let (a, Ghost(ts)) = self.fold_list(elements);
                (Expr::ArrayLiteral { elements: a }, Ghost(FoldTrace::List(ts)))
            },
            Expr::Index { object, index } => {
                let (o, Ghost(to)) = self.fold_constants(object);
                let (i, Ghost(ti)) = self.fold_constants(index);
                (Expr::Index { object: Box::new(o), index: Box::new(i) }, Ghost(FoldTrace::Two(Box::new(to), Box::new(ti))))
            },
            Expr::Member { object, member } => {
                let (o, Ghost(to)) = self.fold_constants(object);
                (Expr::Member { object: Box::new(o), member: member.clone() }, Ghost(FoldTrace::One(Box::new(to))))
            },
            Expr::ObjectLiteral { pairs } => {
                let (p, Ghost(ts)) = self.fold_pairs(pairs);
                (Expr::ObjectLiteral { pairs: p }, Ghost(FoldTrace::List(ts)))
            },
            _ => (e.copy(), Ghost(FoldTrace::Kept)),
        }
    }

    fn fold_list(&mut self, v: &Vec<Expr>) -> (res: (Vec<Expr>, Ghost<Seq<FoldTrace>>))
        requires
            old(self).count() + size_all(views(v@)) <= usize::MAX,
        ensures
            folded_list(views(v@), res.1@, views(res.0@)),
            op_count_all(views(res.0@)) <= op_count_all(views(v@)),
            final(self).count() == old(self).count() + op_count_all(views(v@)) - op_count_all(views(res.0@)),
            final(self).count() + size_all(views(res.0@)) <= old(self).count() + size_all(views(v@)),
        decreases v,
    {
        let ghost es = views(v@);
        let ghost c0 = self.count();
        proof {
            lemma_views(v@);
        }
        let mut out: Vec<Expr> = Vec::new();
        let ghost mut ts: Seq<FoldTrace> = Seq::empty();
        let mut i: usize = 0;
        while i < v.len()
            invariant
                i <= v.len(),
                es == views(v@),
                es.len() == v@.len(),
                forall|j: int| 0 <= j < v@.len() ==> #[trigger] es[j] == v@[j]@,
                out@.len() == i,
                folded_list(es.take(i as int), ts, views(out@)),
                op_count_all(views(out@)) <= op_count_all(es.take(i as int)),
                self.count() == c0 + op_count_all(es.take(i as int)) - op_count_all(views(out@)),
                self.count() + size_all(views(out@)) <= c0 + size_all(es.take(i as int)),
                c0 + size_all(es) <= usize::MAX,
            decreases v.len() - i,
        {
            proof {
                assert(decreases_to!(v => v@[i as int]));
                lemma_counts_prefix(es, i + 1);
                lemma_counts_prefix(es, i as int);
                lemma_counts_push(es.take(i as int), es[i as int]);
            }
            let (x, Ghost(t)) = self.fold_constants(&v[i]);
            proof {
                lemma_views_push(out@, x);
                lemma_counts_push(views(out@), x@);
                let old_rs = views(out@);
                assert(es.take(i + 1).drop_last() =~= es.take(i as int));
                assert(ts.push(t).drop_last() =~= ts);
                assert(old_rs.push(x@).drop_last() =~= old_rs);
                ts = ts.push(t);
            }
            out.push(x);
            i = i + 1;
        }
        proof {
            assert(es.take(i as int) =~= es);
        }
        (out, Ghost(ts))
    }

    fn fold_pairs(&mut self, v: &Vec<(String, Expr)>) -> (res: (Vec<(String, Expr)>, Ghost<Seq<FoldTrace>>))
        requires
            old(self).count() + size_pairs(pair_views(v@)) <= usize::MAX,
        ensures
            folded_pairs(pair_views(v@), res.1@, pair_views(res.0@)),
            op_count_pairs(pair_views(res.0@)) <= op_count_pairs(pair_views(v@)),
            final(self).count() == old(self).count() + op_count_pairs(pair_views(v@)) - op_count_pairs(pair_views(res.0@)),
            final(self).count() + size_pairs(pair_views(res.0@)) <= old(self).count() + size_pairs(pair_views(v@)),
        decreases v,
    {
        let ghost ps = pair_views(v@);
        let ghost c0 = self.count();
        proof {
            lemma_pair_views(v@);
        }
        let mut out: Vec<(String, Expr)> = Vec::new();
        let ghost mut ts: Seq<FoldTrace> = Seq::empty();
        let mut i: usize = 0;
        while i < v.len()
            invariant
                i <= v.len(),
                ps == pair_views(v@),
                ps.len() == v@.len(),
                forall|j: int| 0 <= j < v@.len() ==> #[trigger] ps[j] == (v@[j].0@, v@[j].1@),
                out@.len() == i,
                folded_pairs(ps.take(i as int), ts, pair_views(out@)),
                op_count_pairs(pair_views(out@)) <= op_count_pairs(ps.take(i as int)),
                self.count() == c0 + op_count_pairs(ps.take(i as int)) - op_count_pairs(pair_views(out@)),
                self.count() + size_pairs(pair_views(out@)) <= c0 + size_pairs(ps.take(i as int)),
                c0 + size_pairs(ps) <= usize::MAX,
            decreases v.len() - i,
        {
            proof {
                assert(decreases_to!(v => v@[i as int].1));
                lemma_pair_counts_prefix(ps, i + 1);
                lemma_pair_counts_prefix(ps, i as int);
                lemma_pair_counts_push(ps.take(i as int), ps[i as int]);
                lemma_pair_views(out@);
            }
            let (x, Ghost(t)) = self.fold_constants(&v[i].1);
            let k = v[i].0.clone();
            proof {
                lemma_pair_views(out@.push((k, x)));
                let old_rs = pair_views(out@);
                assert(pair_views(out@.push((k, x))) =~= old_rs.push((k@, x@)));
                lemma_pair_counts_push(old_rs, (k@, x@));
                assert(ps.take(i + 1).drop_last() =~= ps.take(i as int));
                assert(ts.push(t).drop_last() =~= ts);
                assert(old_rs.push((k@, x@)).drop_last() =~= old_rs);
                ts = ts.push(t);
            }
            out.push((k, x));
            i = i + 1;
        }
        proof {
            assert(ps.take(i as int) =~= ps);
        }
        (out, Ghost(ts))
    }

    /// Merges nested filters (see `combined`), counting each merge.
    fn combine_filters(&mut self, e: &Expr) -> (r: Expr)
        requires
            old(self).count() + size(e@) <= usize::MAX,
        ensures
            r@ == combined(e@).0,
            final(self).count() == old(self).count() + combined(e@).1,
            final(self).count() <= old(self).count() + size(e@),
            size(r@) <= size(e@),
        decreases e,
    {
        match e {
            Expr::FunctionCall { name, args } => {
                let mut merged: Option<Expr> = None;
                proof {
                    lemma_views(args@);
                }
                if str_eq(name.as_str(), "table_filter") && args.len() == 2 {
                    match &args[0] {
                        Expr::FunctionCall { name: inner_name, args: inner_args } => {
                            proof {
                                lemma_views(inner_args@);
                            }
                            if str_eq(inner_name.as_str(), "table_filter") && inner_args.len() == 2 {
                                let condition = Expr::Binary {
                                    left: Box::new(inner_args[1].copy()),
                                    operator: BinaryOp::And,
                                    right: Box::new(args[1].copy()),
                                };
                                let new_args = vec![inner_args[0].copy(), condition];
                                proof {
                                    lemma_views(new_args@);
                                    lemma_size_all_two(views(new_args@));
                                    let iv = views(inner_args@);
                                    let av = views(args@);
                                    assert(views(new_args@) =~= seq![
                                        iv[0],
                                        ExprView::Binary(Box::new(iv[1]), BinaryOp::And, Box::new(av[1])),
                                    ]);
                                    lemma_size_all_two(views(inner_args@));
                                    lemma_size_all_two(views(args@));
                                }
                                self.optimization_count = self.optimization_count + 1;
                                merged = Some(Expr::FunctionCall { name: name.clone(), args: new_args });
                            }
                        },
                        _ => {},
                    }
                }
                match merged {
                    Some(m) => m,
                    None => {
                        let a = self.combine_list(args);
                        Expr::FunctionCall { name: name.clone(), args: a }
                    },
                }
            },
            Expr::Binary { left, operator, right } => {
                let a = self.combine_filters(left);
                let b = self.combine_filters(right);
                Expr::Binary { left: Box::new(a), operator: *operator, right: Box::new(b) }
            },
            Expr::Unary { operator, operand } => {
                let a = self.combine_filters(operand);
                Expr::Unary { operator: *operator, operand: Box::new(a) }
            },
            Expr::Index { object, index } => {
                let o = self.combine_filters(object);
                let i = self.combine_filters(index);
                Expr::Index { object: Box::new(o), index: Box::new(i) }
            },
            Expr::Member { object, member } => {
                let o = self.combine_filters(object);
                Expr::Member { object: Box::new(o), member: member.clone() }
            },
            Expr::ArrayLiteral { elements } => {
                let a = self.combine_list(elements);
                Expr::ArrayLiteral { elements: a }
            },
            Expr::ObjectLiteral { pairs } => {
                let p = self.combine_pairs(pairs);
                Expr::ObjectLiteral { pairs: p }
            },
            _ => e.copy(),
        }
    }

    fn combine_list(&mut self, v: &Vec<Expr>) -> (r: Vec<Expr>)
        requires
            old(self).count() + size_all(views(v@)) <= usize::MAX,
        ensures
            views(r@) == combined_list(views(v@)).0,
            final(self).count() == old(self).count() + combined_list(views(v@)).1,
            final(self).count() <= old(self).count() + size_all(views(v@)),
            size_all(views(r@)) <= size_all(views(v@)),
        decreases v,
    {
        let ghost es = views(v@);
        let ghost c0 = self.count();
        proof {
            lemma_views(v@);
        }
        let mut out: Vec<Expr> = Vec::new();
        let mut i: usize = 0;
        while i < v.len()
            invariant
                i <= v.len(),
                es == views(v@),
                es.len() == v@.len(),
                forall|j: int| 0 <= j < v@.len() ==> #[trigger] es[j] == v@[j]@,
                out@.len() == i,
                views(out@) == combined_list(es.take(i as int)).0,
                self.count() == c0 + combined_list(es.take(i as int)).1,
                self.count() <= c0 + size_all(es.take(i as int)),
                size_all(views(out@)) <= size_all(es.take(i as int)),
                c0 + size_all(es) <= usize::MAX,
            decreases v.len() - i,
        {
            proof {
                assert(decreases_to!(v => v@[i as int]));
                lemma_counts_prefix(es, i + 1);
                lemma_counts_prefix(es, i as int);
                lemma_counts_push(es.take(i as int), es[i as int]);
            }
            let x = self.combine_filters(&v[i]);
            proof {
                lemma_views_push(out@, x);
                lemma_counts_push(views(out@), x@);
                assert(es.take(i + 1).drop_last() =~= es.take(i as int));
            }
            out.push(x);
            i = i + 1;
        }
        proof {
            assert(es.take(i as int) =~= es);
        }
        out
    }

    fn combine_pairs(&mut self, v: &Vec<(String, Expr)>) -> (r: Vec<(String, Expr)>)
        requires
            old(self).count() + size_pairs(pair_views(v@)) <= usize::MAX,
        ensures
            pair_views(r@) == combined_pairs(pair_views(v@)).0,
            final(self).count() == old(self).count() + combined_pairs(pair_views(v@)).1,
            final(self).count() <= old(self).count() + size_pairs(pair_views(v@)),
            size_pairs(pair_views(r@)) <= size_pairs(pair_views(v@)),
        decreases v,
    {
        let ghost ps = pair_views(v@);
        let ghost c0 = self.count();
        proof {
            lemma_pair_views(v@);
        }
        let mut out: Vec<(String, Expr)> = Vec::new();
        let mut i: usize = 0;
        while i < v.len()
            invariant
                i <= v.len(),
                ps == pair_views(v@),
                ps.len() == v@.len(),
                forall|j: int| 0 <= j < v@.len() ==> #[trigger] ps[j] == (v@[j].0@, v@[j].1@),
                out@.len() == i,
                pair_views(out@) == combined_pairs(ps.take(i as int)).0,
                self.count() == c0 + combined_pairs(ps.take(i as int)).1,
                self.count() <= c0 + size_pairs(ps.take(i as int)),
                size_pairs(pair_views(out@)) <= size_pairs(ps.take(i as int)),
                c0 + size_pairs(ps) <= usize::MAX,
            decreases v.len() - i,
        {
            proof {
                assert(decreases_to!(v => v@[i as int].1));
                lemma_pair_counts_prefix(ps, i + 1);
                lemma_pair_counts_prefix(ps, i as int);
                lemma_pair_counts_push(ps.take(i as int), ps[i as int]);
            }
            let x = self.combine_filters(&v[i].1);
            let k = v[i].0.clone();
            proof {
                lemma_pair_views(out@);
                lemma_pair_views(out@.push((k, x)));
                let old_rs = pair_views(out@);
                assert(pair_views(out@.push((k, x))) =~= old_rs.push((k@, x@)));
                lemma_pair_counts_push(old_rs, (k@, x@));
                assert(ps.take(i + 1).drop_last() =~= ps.take(i as int));
            }
            out.push((k, x));
            i = i + 1;
        }
        proof {
            assert(ps.take(i as int) =~= ps);
        }
        out
    }

    fn fold_value_unary(&self, op: UnaryOp, a: &Value) -> (r: Option<Value>)
        ensures
            unary_outcome(op, a@, value_opt(r)),
    {
        match (op, a) {
            (UnaryOp::Minus, Value::Number(x)) => Some(Value::Number(self.numbers.negate(x.as_str()))),
            (UnaryOp::Not, Value::Bool(b)) => Some(Value::Bool(!*b)),
            _ => None,
        }
    }
}

} // verus!
