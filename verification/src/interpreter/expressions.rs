//! The expression evaluator's view of the interpreter: the variables and
//! user functions that an expression is evaluated against, and the line it
//! stands on.
use vstd::prelude::*;
use super::user_functions::UserFunctionManager;
use super::variables::{VariableManager, Vars, var_lookup};
use super::user_functions::UserFunction;
use super::call_frame::NumberText;
use super::control_flow::{ControlFlowHandler, truth};
use crate::error::DataCodeError;
use crate::optimizer::ast::NumberArithmetic;
use crate::parser::ast::{Expr, ExprView, views, lemma_views, lemma_views_push};
use crate::parser::tokens::{BinaryOp, UnaryOp};
use crate::text::{ascii_digit, is_digit, chars_of, decimal_string, owned, push_string, str_eq, decimal, upper_text, lower_text, trimmed,
    uppercase, lowercase, all_digits, digits_value, digits_index, trim, string_of, push_char};
use crate::optimizer::ast::value_opt;
use crate::value::{Value, ValueView, value_list, lemma_value_list, lemma_value_list_push};

verus! {

/// What an expression is evaluated against: the interpreter's variables,
/// its user functions and the current line.
pub struct ExpressionEvaluator<'a> {
    pub variable_manager: &'a VariableManager,
    pub function_manager: &'a UserFunctionManager,
    pub current_line: usize,
}

impl<'a> ExpressionEvaluator<'a> {
    /// An evaluator over these variables and functions, at this line.
    pub fn new(
        variable_manager: &'a VariableManager,
        function_manager: &'a UserFunctionManager,
        current_line: usize,
    ) -> (r: Self)
        ensures
            *r.variable_manager == *variable_manager,
            *r.function_manager == *function_manager,
            r.current_line == current_line,
    {
        ExpressionEvaluator { variable_manager, function_manager, current_line }
    }
}


/// A string comes before another in the order of `<` on strings: at the
/// first place where they differ its character is smaller, or it is a
/// proper prefix of the other.
pub open spec fn text_less(a: Seq<char>, b: Seq<char>) -> bool
    decreases a.len(),
{
    if b.len() == 0 {
        false
    } else if a.len() == 0 {
        true
    } else if a[0] != b[0] {
        a[0] < b[0]
    } else {
        text_less(a.drop_first(), b.drop_first())
    }
}

/// Equality of two values that are not both numbers: strings, truth values
/// and `null` equal themselves; values of different kinds differ.
pub open spec fn same_value(a: ValueView, b: ValueView) -> bool {
    match (a, b) {
        (ValueView::String(x), ValueView::String(y)) => x == y,
        (ValueView::Bool(x), ValueView::Bool(y)) => x == y,
        (ValueView::Null, ValueView::Null) => true,
        _ => false,
    }
}

/// The order of two strings under a comparison operator.
pub open spec fn text_order(x: Seq<char>, op: BinaryOp, y: Seq<char>) -> bool {
    match op {
        BinaryOp::Less => text_less(x, y),
        BinaryOp::Greater => text_less(y, x),
        BinaryOp::LessEqual => !text_less(y, x),
        _ => !text_less(x, y),
    }
}

/// A comparison operator.
pub open spec fn is_comparison(op: BinaryOp) -> bool {
    op == BinaryOp::Less || op == BinaryOp::Greater || op == BinaryOp::LessEqual || op == BinaryOp::GreaterEqual
}

/// `v` is a possible value of `a op b` for values `a` and `b`. Numbers are
/// computed by the number arithmetic, of which only the kind of its result
/// is known; strings join under `+` (a number joined to a string is written
/// as the arithmetic writes it) and compare in character order; `==` and
/// `!=` compare values of other kinds exactly; `and` and `or` give the
/// truth of the value that decides them.
pub open spec fn binary_gives(a: ValueView, op: BinaryOp, b: ValueView, v: ValueView) -> bool {
    match op {
        BinaryOp::Add => match (a, b) {
            (ValueView::Number(_), ValueView::Number(_)) => v is Number,
            (ValueView::String(x), ValueView::String(y)) => v == ValueView::String(x + y),
            (ValueView::String(x), ValueView::Number(_)) => v matches ValueView::String(s)
                && x.len() <= s.len() && s.take(x.len() as int) == x,
            (ValueView::Number(_), ValueView::String(y)) => v matches ValueView::String(s)
                && y.len() <= s.len() && s.skip(s.len() - y.len()) == y,
            _ => false,
        },
        BinaryOp::Subtract | BinaryOp::Multiply | BinaryOp::Divide | BinaryOp::Modulo =>
            a is Number && b is Number && v is Number,
        BinaryOp::PathJoin => false,
        BinaryOp::Equal | BinaryOp::NotEqual => if a is Number && b is Number {
            v is Bool
        } else {
            v == ValueView::Bool(if op == BinaryOp::Equal { same_value(a, b) } else { !same_value(a, b) })
        },
        BinaryOp::And => if !(a is Number) && !truth(a) {
            v == ValueView::Bool(false)
        } else if !(a is Number) && !(b is Number) {
            v == ValueView::Bool(truth(b))
        } else {
            v is Bool
        },
        BinaryOp::Or => if !(a is Number) && truth(a) {
            v == ValueView::Bool(true)
        } else if !(a is Number) && !(b is Number) {
            v == ValueView::Bool(truth(b))
        } else {
            v is Bool
        },
        _ => match (a, b) {
            (ValueView::Number(_), ValueView::Number(_)) => v is Bool,
            (ValueView::String(x), ValueView::String(y)) => v == ValueView::Bool(text_order(x, op, y)),
            _ => false,
        },
    }
}

/// `a op b` may fail: an operator on kinds it does not take, a path join
/// (there are no paths among these values), or a division or remainder by
/// a number that the arithmetic finds zero.
pub open spec fn binary_may_fail(a: ValueView, op: BinaryOp, b: ValueView) -> bool {
    match op {
        BinaryOp::Add => match (a, b) {
            (ValueView::Number(_), ValueView::Number(_)) => false,
            (ValueView::String(_), ValueView::String(_)) => false,
            (ValueView::String(_), ValueView::Number(_)) => false,
            (ValueView::Number(_), ValueView::String(_)) => false,
            _ => true,
        },
        BinaryOp::Subtract | BinaryOp::Multiply => !(a is Number && b is Number),
        BinaryOp::Divide | BinaryOp::Modulo => match (a, b) {
            (ValueView::Number(_), ValueView::Number(t)) => !whole_part_nonzero(t),
            _ => true,
        },
        BinaryOp::PathJoin => true,
        BinaryOp::Equal | BinaryOp::NotEqual | BinaryOp::And | BinaryOp::Or => false,
        _ => !((a is Number && b is Number) || (a is String && b is String)),
    }
}

/// The length of the sign that a number text starts with: one for `-`.
pub open spec fn sign_len(t: Seq<char>) -> int {
    if t.len() > 0 && t[0] == '-' { 1 } else { 0 }
}

/// The number that `t` writes has a whole part that is not zero: after an
/// optional `-`, decimal digits up to `k`, not all `0`, then nothing more,
/// or `.` and at least one further digit. Such a number is at least one in
/// size, so it is not zero.
pub open spec fn whole_part_nonzero(t: Seq<char>) -> bool {
    exists|k: int| #[trigger] whole_part_ends_at(t, k)
}

/// The whole part of the number that `t` writes ends at `k` and is not zero
/// (see `whole_part_nonzero`).
pub open spec fn whole_part_ends_at(t: Seq<char>, k: int) -> bool {
    let b = sign_len(t);
    &&& b < k <= t.len()
    &&& forall|i: int| b <= i < k ==> is_digit(#[trigger] t[i])
    &&& exists|i: int| b <= i < k && #[trigger] t[i] != '0'
    &&& (k == t.len() || (t[k] == '.' && k + 1 < t.len() && forall|j: int| k < j < t.len() ==> is_digit(
        #[trigger] t[j],
    )))
}

/// Dividing, or taking the remainder, never fails on two numbers whose
/// divisor is written with a whole part that is not zero (such as `10 / 2`):
/// `evaluate_binary_op` and the evaluators then give a number.
pub proof fn law_division_by_a_nonzero_number_succeeds(x: Seq<char>, t: Seq<char>, op: BinaryOp)
    requires
        op == BinaryOp::Divide || op == BinaryOp::Modulo,
        whole_part_nonzero(t),
    ensures
        !binary_may_fail(ValueView::Number(x), op, ValueView::Number(t)),
        forall|v: ValueView| binary_gives(ValueView::Number(x), op, ValueView::Number(t), v) <==> v is Number,
{
}

/// `v` is a possible value of `op a`: a negated number, or the negated
/// truth of the value.
pub open spec fn unary_gives(op: UnaryOp, a: ValueView, v: ValueView) -> bool {
    match op {
        UnaryOp::Minus => a is Number && v is Number,
        UnaryOp::Not => if a is Number { v is Bool } else { v == ValueView::Bool(!truth(a)) },
    }
}

/// The value of the member `m` of `o`: of a list, `len` (its length),
/// `first` and `last` (`null` for an empty list); of a string, `len` (its
/// number of characters), `upper`, `lower` and `trim`; nothing else has a
/// member.
pub open spec fn member_value(o: ValueView, m: Seq<char>) -> Option<ValueView> {
    match o {
        ValueView::Array(xs) => if m == seq!['l', 'e', 'n'] {
            Some(ValueView::Number(decimal(xs.len())))
        } else if m == seq!['f', 'i', 'r', 's', 't'] {
            Some(if xs.len() == 0 { ValueView::Null } else { xs[0] })
        } else if m == seq!['l', 'a', 's', 't'] {
            Some(if xs.len() == 0 { ValueView::Null } else { xs.last() })
        } else {
            None
        },
        ValueView::String(cs) => if m == seq!['l', 'e', 'n'] {
            Some(ValueView::Number(decimal(cs.len())))
        } else if m == seq!['u', 'p', 'p', 'e', 'r'] {
            Some(ValueView::String(upper_text(cs)))
        } else if m == seq!['l', 'o', 'w', 'e', 'r'] {
            Some(ValueView::String(lower_text(cs)))
        } else if m == seq!['t', 'r', 'i', 'm'] {
            Some(ValueView::String(trimmed(cs)))
        } else {
            None
        },
        _ => None,
    }
}

/// The element of `o` at index `i`: of a list, the element; of a string,
/// the one-character string; the index must be a number written with
/// decimal digits only and lie within `o`.
pub open spec fn index_value(o: ValueView, i: ValueView) -> Option<ValueView> {
    match i {
        ValueView::Number(t) => match o {
            ValueView::Array(xs) => if all_digits(t) && digits_value(t) < xs.len() {
                Some(xs[digits_value(t) as int])
            } else {
                None
            },
            ValueView::String(cs) => if all_digits(t) && digits_value(t) < cs.len() {
                Some(ValueView::String(seq![cs[digits_value(t) as int]]))
            } else {
                None
            },
            _ => None,
        },
        _ => None,
    }
}

/// The member `m` of `a` (see `member_value`).
pub fn member_of(a: &Value, m: &str) -> (r: Option<Value>)
    ensures
        value_opt(r) == member_value(a@, m@),
{
    proof {
        reveal_strlit("len");
        reveal_strlit("first");
        reveal_strlit("last");
        reveal_strlit("upper");
        reveal_strlit("lower");
        reveal_strlit("trim");
        assert("len"@ =~= seq!['l', 'e', 'n']);
        assert("first"@ =~= seq!['f', 'i', 'r', 's', 't']);
        assert("last"@ =~= seq!['l', 'a', 's', 't']);
        assert("upper"@ =~= seq!['u', 'p', 'p', 'e', 'r']);
        assert("lower"@ =~= seq!['l', 'o', 'w', 'e', 'r']);
        assert("trim"@ =~= seq!['t', 'r', 'i', 'm']);
    }
    match a {
        Value::Array(xs) => {
            proof { lemma_value_list(xs@); }
            if str_eq(m, "len") {
                let n = xs.len() as u64;
                let r = Some(Value::Number(decimal_string(n)));
                assert(m@ == seq!['l', 'e', 'n']);
                assert(n as nat == value_list(xs@).len());
                assert(value_opt(r) == Some(ValueView::Number(decimal(n as nat))));
                assert(value_opt(r) == member_value(a@, m@));
                r
            } else if str_eq(m, "first") {
                assert(m@ == seq!['f', 'i', 'r', 's', 't']);
                Some(if xs.len() == 0 { Value::Null } else { xs[0].copy() })
            } else if str_eq(m, "last") {
                assert(m@ == seq!['l', 'a', 's', 't']);
                Some(if xs.len() == 0 { Value::Null } else { xs[xs.len() - 1].copy() })
            } else {
                assert(m@ != seq!['l', 'a', 's', 't']);
                None
            }
        },
        Value::String(s) => {
            if str_eq(m, "len") {
                let n = chars_of(s.as_str()).len() as u64;
                let r = Some(Value::Number(decimal_string(n)));
                assert(m@ == seq!['l', 'e', 'n']);
                assert(value_opt(r) == Some(ValueView::Number(decimal(n as nat))));
                assert(value_opt(r) == member_value(a@, m@));
                r
            } else if str_eq(m, "upper") {
                assert(m@ == seq!['u', 'p', 'p', 'e', 'r']);
                Some(Value::String(uppercase(s.as_str())))
            } else if str_eq(m, "lower") {
                assert(m@ == seq!['l', 'o', 'w', 'e', 'r']);
                Some(Value::String(lowercase(s.as_str())))
            } else if str_eq(m, "trim") {
                assert(m@ == seq!['t', 'r', 'i', 'm']);
                let cs = chars_of(s.as_str());
                Some(Value::String(string_of(trim(cs.as_slice()).as_slice())))
            } else {
                None
            }
        },
        _ => None,
    }
}

/// The element of `a` at index `i` (see `index_value`).
pub fn index_of(a: &Value, i: &Value) -> (r: Option<Value>)
    ensures
        value_opt(r) == index_value(a@, i@),
{
    match i {
        Value::Number(t) => match a {
            Value::Array(xs) => {
                proof { lemma_value_list(xs@); }
                match digits_index(t.as_str(), xs.len()) {
                    Some(k) => if k < xs.len() { Some(xs[k].copy()) } else { None },
                    None => None,
                }
            },
            Value::String(s) => {
                let cs = chars_of(s.as_str());
                match digits_index(t.as_str(), cs.len()) {
                    Some(k) => if k < cs.len() {
                        let mut one = String::new();
                        push_char(&mut one, cs[k]);
                        proof { assert(one@ =~= seq![cs@[k as int]]); }
                        Some(Value::String(one))
                    } else {
                        None
                    },
                    None => None,
                }
            },
            _ => None,
        },
        _ => None,
    }
}

/// How an expression was evaluated: for an operator node, how its operands
/// were evaluated and their values, as far as evaluation went.
pub enum EvalTrace {
    /// Both operands, with their values.
    Both(Box<EvalTrace>, ValueView, Box<EvalTrace>, ValueView),
    /// The first operand, which failed.
    First(Box<EvalTrace>),
    /// The first operand with its value, and the second, which failed.
    Second(Box<EvalTrace>, ValueView, Box<EvalTrace>),
    /// The one operand, with its value.
    One(Box<EvalTrace>, ValueView),
    /// The elements of a list, in order.
    List(Seq<EvalTrace>),
    /// Nothing evaluated below this node.
    Leaf,
}

/// `v` is a value of `e` along `t` over these variables and functions: a
/// literal is its value, a variable the value it resolves to; an operator
/// applies to the values of its operands, left first (see `binary_gives`,
/// `unary_gives`); a member or an index of a value is as `member_value`
/// and `index_value` give it; a list literal is the list of its elements'
/// values; a call of a function that is not a user function is answered by
/// the built-in functions, of which nothing is known. Nothing else has a
/// value here: user functions are called by the interpreter (see
/// `ceval_by`), not by this evaluator.
pub open spec fn evaluates_by(s: Vars, fns: Map<Seq<char>, UserFunction>, e: ExprView, t: EvalTrace, v: ValueView) -> bool
    decreases e,
{
    match e {
        ExprView::Literal(x) => v == x,
        ExprView::Variable(n) => var_lookup(s, n) == Some(v),
        ExprView::Binary(l, op, r) => t matches EvalTrace::Both(tl, a, tr, b)
            && evaluates_by(s, fns, *l, *tl, a) && evaluates_by(s, fns, *r, *tr, b) && binary_gives(a, op, b, v),
        ExprView::Unary(op, x) => t matches EvalTrace::One(tx, a)
            && evaluates_by(s, fns, *x, *tx, a) && unary_gives(op, a, v),
        ExprView::FunctionCall(name, _) => !fns.contains_key(name),
        ExprView::ArrayLiteral(es) => t matches EvalTrace::List(ts) && v matches ValueView::Array(vs)
            && evaluates_list_by(s, fns, es, ts, vs),
        ExprView::Member(o, m) => t matches EvalTrace::One(to, a)
            && evaluates_by(s, fns, *o, *to, a) && member_value(a, m) == Some(v),
        ExprView::Index(o, i) => t matches EvalTrace::Both(to, a, ti, b)
            && evaluates_by(s, fns, *o, *to, a) && evaluates_by(s, fns, *i, *ti, b) && index_value(a, b) == Some(v),
        _ => false,
    }
}

/// Each value of `vs` is a value of the expression of `es` at its place
/// (see `evaluates_by`).
pub open spec fn evaluates_list_by(
    s: Vars,
    fns: Map<Seq<char>, UserFunction>,
    es: Seq<ExprView>,
    ts: Seq<EvalTrace>,
    vs: Seq<ValueView>,
) -> bool
    decreases es,
{
    if es.len() == 0 {
        ts.len() == 0 && vs.len() == 0
    } else {
        &&& ts.len() == es.len() && vs.len() == es.len()
        &&& evaluates_list_by(s, fns, es.drop_last(), ts.drop_last(), vs.drop_last())
        &&& evaluates_by(s, fns, es.last(), ts.last(), vs.last())
    }
}

/// Evaluating `e` fails along `t`: an unknown variable; an operand that
/// fails, or an operator that fails on the operands' values (see
/// `binary_may_fail`; negating anything but a number); a member or an
/// index that the value does not have; a call of a user function (which
/// the interpreter runs, not this evaluator) or of a built-in function; a
/// list literal (whose elements may fail); an object or any other
/// expression, which these values cannot hold.
pub open spec fn fails_by(s: Vars, fns: Map<Seq<char>, UserFunction>, e: ExprView, t: EvalTrace) -> bool
    decreases e,
{
    match e {
        ExprView::Literal(_) => false,
        ExprView::Variable(n) => var_lookup(s, n) is None,
        ExprView::Binary(l, op, r) => match t {
            EvalTrace::First(tl) => fails_by(s, fns, *l, *tl),
            EvalTrace::Second(tl, a, tr) => evaluates_by(s, fns, *l, *tl, a) && fails_by(s, fns, *r, *tr),
            EvalTrace::Both(tl, a, tr, b) => evaluates_by(s, fns, *l, *tl, a) && evaluates_by(s, fns, *r, *tr, b)
                && binary_may_fail(a, op, b),
            _ => false,
        },
        ExprView::Unary(op, x) => match t {
            EvalTrace::First(tx) => fails_by(s, fns, *x, *tx),
            EvalTrace::One(tx, a) => evaluates_by(s, fns, *x, *tx, a) && op == UnaryOp::Minus && !(a is Number),
            _ => false,
        },
        ExprView::Member(o, m) => match t {
            EvalTrace::First(to) => fails_by(s, fns, *o, *to),
            EvalTrace::One(to, a) => evaluates_by(s, fns, *o, *to, a) && member_value(a, m) is None,
            _ => false,
        },
        ExprView::Index(o, i) => match t {
            EvalTrace::First(to) => fails_by(s, fns, *o, *to),
            EvalTrace::Second(to, a, ti) => evaluates_by(s, fns, *o, *to, a) && fails_by(s, fns, *i, *ti),
            EvalTrace::Both(to, a, ti, b) => evaluates_by(s, fns, *o, *to, a) && evaluates_by(s, fns, *i, *ti, b)
                && index_value(a, b) is None,
            _ => false,
        },
        _ => true,
    }
}

/// `v` is a possible value of `e` (see `evaluates_by`).
pub open spec fn evaluates_to(s: Vars, fns: Map<Seq<char>, UserFunction>, e: ExprView, v: ValueView) -> bool {
    exists|t: EvalTrace| #[trigger] evaluates_by(s, fns, e, t, v)
}

/// Evaluating `e` may fail (see `fails_by`).
pub open spec fn may_fail(s: Vars, fns: Map<Seq<char>, UserFunction>, e: ExprView) -> bool {
    exists|t: EvalTrace| #[trigger] fails_by(s, fns, e, t)
}

/// Whether `a` comes before `b` (see `text_less`).
fn text_before(a: &Vec<char>, b: &Vec<char>) -> (r: bool)
    ensures
        r == text_less(a@, b@),
{
    let mut i: usize = 0;
    proof {
        assert(a@.skip(0) =~= a@);
        assert(b@.skip(0) =~= b@);
    }
    while i < a.len() && i < b.len()
        invariant
            i <= a@.len(),
            i <= b@.len(),
            text_less(a@.skip(i as int), b@.skip(i as int)) == text_less(a@, b@),
        decreases a.len() - i,
    {
        let ghost s = a@.skip(i as int);
        let ghost t = b@.skip(i as int);
        proof {
            assert(s[0] == a@[i as int]);
            assert(t[0] == b@[i as int]);
        }
        if a[i] != b[i] {
            return a[i] < b[i];
        }
        proof {
            assert(s.drop_first() =~= a@.skip(i + 1));
            assert(t.drop_first() =~= b@.skip(i + 1));
        }
        i = i + 1;
    }
    proof {
        if i == b@.len() {
            assert(b@.skip(i as int).len() == 0);
        } else {
            assert(a@.skip(i as int).len() == 0);
        }
    }
    i < b.len()
}

/// Whether two values that are not both numbers are equal (see
/// `same_value`).
fn same_value_of(a: &Value, b: &Value) -> (r: bool)
    ensures
        r == same_value(a@, b@),
{
    match (a, b) {
        (Value::String(x), Value::String(y)) => str_eq(x.as_str(), y.as_str()),
        (Value::Bool(x), Value::Bool(y)) => *x == *y,
        (Value::Null, Value::Null) => true,
        _ => false,
    }
}

/// Whether the number that `t` writes has a whole part that is not zero
/// (see `whole_part_nonzero`).
pub fn written_nonzero(t: &str) -> (r: bool)
    ensures
        r == whole_part_nonzero(t@),
{
    let v = chars_of(t);
    let ghost s = t@;
    let start: usize = if v.len() > 0 && v[0] == '-' { 1 } else { 0 };
    assert(start == sign_len(s));
    let mut k: usize = start;
    let mut nonzero = false;
    while k < v.len() && ascii_digit(v[k])
        invariant
            v@ == s,
            start == sign_len(s),
            start <= k <= v@.len(),
            forall|i: int| start <= i < k ==> is_digit(#[trigger] s[i]),
            nonzero == exists|i: int| start <= i < k && #[trigger] s[i] != '0',
        decreases v.len() - k,
    {
        if v[k] != '0' {
            nonzero = true;
        }
        k = k + 1;
    }
    let ghost kk = k as int;
    proof {
        assert(kk == s.len() || !is_digit(s[kk]));
        assert forall|k2: int| whole_part_ends_at(s, k2) implies k2 == kk by {
            if k2 > kk {
                assert(is_digit(s[kk]));
            } else if k2 < kk {
                assert(is_digit(s[k2]));
            }
        }
    }
    if k == start || !nonzero {
        proof {
            if whole_part_nonzero(s) {
                let k2 = choose|k2: int| #[trigger] whole_part_ends_at(s, k2);
                assert(k2 == kk);
            }
        }
        return false;
    }
    if k == v.len() {
        assert(whole_part_ends_at(s, kk));
        return true;
    }
    if v[k] != '.' || k + 1 >= v.len() {
        proof {
            if whole_part_nonzero(s) {
                let k2 = choose|k2: int| #[trigger] whole_part_ends_at(s, k2);
                assert(k2 == kk);
            }
        }
        return false;
    }
    let mut j: usize = k + 1;
    while j < v.len()
        invariant
            v@ == s,
            s == t@,
            k < j <= v@.len(),
            kk == k,
            forall|i: int| k < i < j ==> is_digit(#[trigger] s[i]),
            forall|k2: int| whole_part_ends_at(s, k2) ==> k2 == kk,
        decreases v.len() - j,
    {
        if !ascii_digit(v[j]) {
            proof {
                assert(!is_digit(s[j as int]));
                if whole_part_nonzero(s) {
                    let k2 = choose|k2: int| #[trigger] whole_part_ends_at(s, k2);
                    assert(k2 == kk);
                    assert(whole_part_ends_at(s, kk));
                    assert(kk < j < s.len());
                    assert(is_digit(s[j as int]));
                    assert(false);
                }
            }
            return false;
        }
        j = j + 1;
    }
    assert(whole_part_ends_at(s, kk));
    true
}

/// The values of the built-in functions, called by name with the values of
/// their arguments. An implementation supplies them; nothing is assumed of
/// what it returns.
pub trait Builtins {
    fn call_builtin(&self, name: &str, args: Vec<Value>, named: Vec<(String, Value)>, line: usize) -> Result<Value,
        DataCodeError>;
}

/// `a` followed by `b`.
fn joined_text(a: &str, b: &str) -> (r: String)
    ensures
        r@ == a@ + b@,
{
    let mut s = owned(a);
    push_string(&mut s, b);
    s
}

impl<'a> ExpressionEvaluator<'a> {
    /// A run-time error at the current line.
    fn fail(&self, message: &str) -> (r: DataCodeError) {
        DataCodeError::runtime_error(owned(message), self.current_line)
    }

    /// `a op b` (see `binary_gives` and `binary_may_fail`).
    pub fn evaluate_binary_op<N: NumberArithmetic + NumberText>(&self, a: &Value, op: BinaryOp, b: &Value, numbers: &N)
        -> (r: Result<Value, DataCodeError>)
        ensures
            match r {
                Ok(v) => binary_gives(a@, op, b@, v@),
                Err(_) => binary_may_fail(a@, op, b@),
            },
    {
        match op {
            BinaryOp::Add => match (a, b) {
                (Value::Number(x), Value::Number(y)) => Ok(Value::Number(numbers.arithmetic(x.as_str(), op, y.as_str()))),
                (Value::String(x), Value::String(y)) => Ok(Value::String(joined_text(x.as_str(), y.as_str()))),
                (Value::String(x), Value::Number(y)) => {
                    let t = numbers.display_text(y.as_str());
                    let s = joined_text(x.as_str(), t.as_str());
                    assert(s@.take(x@.len() as int) =~= x@);
                    Ok(Value::String(s))
                },
                (Value::Number(x), Value::String(y)) => {
                    let t = numbers.display_text(x.as_str());
                    let s = joined_text(t.as_str(), y.as_str());
                    assert(s@.skip(s@.len() - y@.len()) =~= y@);
                    Ok(Value::String(s))
                },
                _ => Err(self.fail("Cannot add these values")),
            },
            BinaryOp::Subtract | BinaryOp::Multiply => match (a, b) {
                (Value::Number(x), Value::Number(y)) => Ok(Value::Number(numbers.arithmetic(x.as_str(), op, y.as_str()))),
                _ => Err(self.fail(if op == BinaryOp::Subtract { "Cannot subtract these values" } else { "Cannot multiply these values" })),
            },
            BinaryOp::Divide | BinaryOp::Modulo => match (a, b) {
                (Value::Number(x), Value::Number(y)) => {
                    if !written_nonzero(y.as_str()) && numbers.is_zero(y.as_str()) {
                        Err(self.fail(if op == BinaryOp::Divide { "Division by zero" } else { "Modulo by zero" }))
                    } else {
                        Ok(Value::Number(numbers.arithmetic(x.as_str(), op, y.as_str())))
                    }
                },
                _ => Err(self.fail(if op == BinaryOp::Divide { "Cannot divide these values" } else { "Cannot modulo these values" })),
            },
            BinaryOp::PathJoin => Err(self.fail("Cannot join a path with these values")),
            BinaryOp::Equal | BinaryOp::NotEqual => {
                let same = match (a, b) {
                    (Value::Number(x), Value::Number(y)) => numbers.compare(x.as_str(), BinaryOp::Equal, y.as_str()),
                    _ => same_value_of(a, b),
                };
                Ok(Value::Bool(if op == BinaryOp::Equal { same } else { !same }))
            },
            BinaryOp::And => {
                if !ControlFlowHandler::to_bool(a, numbers) {
                    Ok(Value::Bool(false))
                } else {
                    Ok(Value::Bool(ControlFlowHandler::to_bool(b, numbers)))
                }
            },
            BinaryOp::Or => {
                if ControlFlowHandler::to_bool(a, numbers) {
                    Ok(Value::Bool(true))
                } else {
                    Ok(Value::Bool(ControlFlowHandler::to_bool(b, numbers)))
                }
            },
            _ => match (a, b) {
                (Value::Number(x), Value::Number(y)) => Ok(Value::Bool(numbers.compare(x.as_str(), op, y.as_str()))),
                (Value::String(x), Value::String(y)) => {
                    let xc = chars_of(x.as_str());
                    let yc = chars_of(y.as_str());
                    let r = if op == BinaryOp::Less {
                        text_before(&xc, &yc)
                    } else if op == BinaryOp::Greater {
                        text_before(&yc, &xc)
                    } else if op == BinaryOp::LessEqual {
                        !text_before(&yc, &xc)
                    } else {
                        !text_before(&xc, &yc)
                    };
                    Ok(Value::Bool(r))
                },
                _ => Err(self.fail("Cannot compare these values")),
            },
        }
    }

    /// The values of a call's arguments, in order; the first error of one.
    fn evaluate_args<N: NumberArithmetic + NumberText, B: Builtins>(&self, args: &Vec<Expr>, numbers: &N, builtins: &B)
        -> (r: Result<Vec<Value>, DataCodeError>)
        requires
            self.variable_manager.wf(),
            self.function_manager.wf(),
        decreases args,
    {
        let mut values: Vec<Value> = Vec::new();
        let mut i: usize = 0;
        while i < args.len()
            invariant
                self.variable_manager.wf(),
                self.function_manager.wf(),
                i <= args@.len(),
            decreases args.len() - i,
        {
            match self.evaluate_traced(&args[i], numbers, builtins).0 {
                Ok(v) => values.push(v),
                Err(e) => return Err(e),
            }
            i = i + 1;
        }
        Ok(values)
    }

    /// `op a` (see `unary_gives`); negating anything but a number fails.
    pub fn evaluate_unary_op<N: NumberArithmetic>(&self, op: UnaryOp, a: &Value, numbers: &N) -> (r: Result<Value, DataCodeError>)
        ensures
            match r {
                Ok(v) => unary_gives(op, a@, v@),
                Err(_) => op == UnaryOp::Minus && !(a@ is Number),
            },
    {
        match op {
            UnaryOp::Minus => match a {
                Value::Number(x) => Ok(Value::Number(numbers.negate(x.as_str()))),
                _ => Err(self.fail("Cannot negate this value")),
            },
            UnaryOp::Not => Ok(Value::Bool(!ControlFlowHandler::to_bool(a, numbers))),
        }
    }

    /// The value of an expression along a trace (see `evaluates_by` and
    /// `fails_by`).
    fn evaluate_traced<N: NumberArithmetic + NumberText, B: Builtins>(&self, expr: &Expr, numbers: &N, builtins: &B)
        -> (res: (Result<Value, DataCodeError>, Ghost<EvalTrace>))
        requires
            self.variable_manager.wf(),
            self.function_manager.wf(),
        ensures
            match res.0 {
                Ok(v) => evaluates_by(self.variable_manager.vars(), self.function_manager.view_map(), expr@, res.1@, v@),
                Err(_) => fails_by(self.variable_manager.vars(), self.function_manager.view_map(), expr@, res.1@),
            },
        decreases expr,
    {
        match expr {
            Expr::Literal(v) => (Ok(v.copy()), Ghost(EvalTrace::Leaf)),
            Expr::Variable(name) => match self.variable_manager.get_variable(name.as_str()) {
                Some(v) => (Ok(v.copy()), Ghost(EvalTrace::Leaf)),
                None => (
                    Err(DataCodeError::runtime_error(
                        joined_text(joined_text("Variable '", name.as_str()).as_str(), "' not found"),
                        self.current_line,
                    )),
                    Ghost(EvalTrace::Leaf),
                ),
            },
            Expr::Binary { left, operator, right } => {
                let (ra, Ghost(ta)) = self.evaluate_traced(left, numbers, builtins);
                let a = match ra {
                    Ok(v) => v,
                    Err(e) => return (Err(e), Ghost(EvalTrace::First(Box::new(ta)))),
                };
                let (rb, Ghost(tb)) = self.evaluate_traced(right, numbers, builtins);
                let b = match rb {
                    Ok(v) => v,
                    Err(e) => return (Err(e), Ghost(EvalTrace::Second(Box::new(ta), a@, Box::new(tb)))),
                };
                let r = self.evaluate_binary_op(&a, *operator, &b, numbers);
                (r, Ghost(EvalTrace::Both(Box::new(ta), a@, Box::new(tb), b@)))
            },
            Expr::Unary { operator, operand } => {
                let (ra, Ghost(ta)) = self.evaluate_traced(operand, numbers, builtins);
                let a = match ra {
                    Ok(v) => v,
                    Err(e) => return (Err(e), Ghost(EvalTrace::First(Box::new(ta)))),
                };
                let r = self.evaluate_unary_op(*operator, &a, numbers);
                (r, Ghost(EvalTrace::One(Box::new(ta), a@)))
            },
            Expr::FunctionCall { name, args } => {
                if self.function_manager.contains_function(name.as_str()) {
                    let mut m = joined_text("USER_FUNCTION_CALL_EXPR:", name.as_str());
                    push_string(&mut m, ":");
                    push_string(&mut m, decimal_string(args.len() as u64).as_str());
                    return (Err(DataCodeError::runtime_error(m, self.current_line)), Ghost(EvalTrace::Leaf));
                }
                let values = match self.evaluate_args(args, numbers, builtins) {
                    Ok(v) => v,
                    Err(e) => return (Err(e), Ghost(EvalTrace::Leaf)),
                };
                (builtins.call_builtin(name.as_str(), values, Vec::new(), self.current_line), Ghost(EvalTrace::Leaf))
            },
            Expr::ArrayLiteral { elements } => {
                let (r, Ghost(ts)) = self.evaluate_elements(elements, numbers, builtins);
                match r {
                    Ok(vs) => (Ok(Value::Array(vs)), Ghost(EvalTrace::List(ts))),
                    Err(e) => (Err(e), Ghost(EvalTrace::Leaf)),
                }
            },
            Expr::Member { object, member } => {
                let (ra, Ghost(ta)) = self.evaluate_traced(object, numbers, builtins);
                let a = match ra {
                    Ok(v) => v,
                    Err(e) => return (Err(e), Ghost(EvalTrace::First(Box::new(ta)))),
                };
                let r = match member_of(&a, member.as_str()) {
                    Some(v) => Ok(v),
                    None => Err(self.fail(joined_text("No such member: ", member.as_str()).as_str())),
                };
                (r, Ghost(EvalTrace::One(Box::new(ta), a@)))
            },
            Expr::Index { object, index } => {
                let (ra, Ghost(ta)) = self.evaluate_traced(object, numbers, builtins);
                let a = match ra {
                    Ok(v) => v,
                    Err(e) => return (Err(e), Ghost(EvalTrace::First(Box::new(ta)))),
                };
                let (rb, Ghost(tb)) = self.evaluate_traced(index, numbers, builtins);
                let b = match rb {
                    Ok(v) => v,
                    Err(e) => return (Err(e), Ghost(EvalTrace::Second(Box::new(ta), a@, Box::new(tb)))),
                };
                let r = match index_of(&a, &b) {
                    Some(v) => Ok(v),
                    None => Err(self.fail("Index out of bounds or not valid")),
                };
                (r, Ghost(EvalTrace::Both(Box::new(ta), a@, Box::new(tb), b@)))
            },
            _ => (Err(self.fail("Unsupported expression type")), Ghost(EvalTrace::Leaf)),
        }
    }

    /// The values of a list literal's elements, in order (see
    /// `evaluates_list_by`); the first error of one.
    fn evaluate_elements<N: NumberArithmetic + NumberText, B: Builtins>(&self, es: &Vec<Expr>, numbers: &N, builtins: &B)
        -> (res: (Result<Vec<Value>, DataCodeError>, Ghost<Seq<EvalTrace>>))
        requires
            self.variable_manager.wf(),
            self.function_manager.wf(),
        ensures
            res.0 matches Ok(vs) ==> evaluates_list_by(self.variable_manager.vars(), self.function_manager.view_map(),
                views(es@), res.1@, value_list(vs@)),
        decreases es,
    {
        let mut values: Vec<Value> = Vec::new();
        let ghost mut ts: Seq<EvalTrace> = Seq::empty();
        let mut i: usize = 0;
        proof {
            assert(es@.take(0) =~= Seq::<Expr>::empty());
            lemma_value_list(values@);
            lemma_views(es@.take(0));
        }
        while i < es.len()
            invariant
                self.variable_manager.wf(),
                self.function_manager.wf(),
                i <= es@.len(),
                evaluates_list_by(self.variable_manager.vars(), self.function_manager.view_map(),
                    views(es@.take(i as int)), ts, value_list(values@)),
            decreases es.len() - i,
        {
            let (r, Ghost(t)) = self.evaluate_traced(&es[i], numbers, builtins);
            match r {
                Ok(v) => {
                    proof {
                        assert(es@.take(i + 1) =~= es@.take(i as int).push(es@[i as int]));
                        lemma_views_push(es@.take(i as int), es@[i as int]);
                        lemma_value_list_push(values@, v);
                        let es2 = views(es@.take(i + 1));
                        assert(es2.drop_last() =~= views(es@.take(i as int)));
                        assert(ts.push(t).drop_last() =~= ts);
                        assert(value_list(values@).push(v@).drop_last() =~= value_list(values@));
                    }
                    values.push(v);
                    proof { ts = ts.push(t); }
                },
                Err(e) => return (Err(e), Ghost(ts)),
            }
            i = i + 1;
        }
        proof {
            assert(es@.take(es@.len() as int) =~= es@);
        }
        (Ok(values), Ghost(ts))
    }

    /// The value of an expression (see `evaluates_to`), or an error (see
    /// `may_fail`); built-in functions are called through `builtins`.
    pub fn evaluate<N: NumberArithmetic + NumberText, B: Builtins>(&self, expr: &Expr, numbers: &N, builtins: &B) -> (r:
        Result<Value, DataCodeError>)
        requires
            self.variable_manager.wf(),
            self.function_manager.wf(),
        ensures
            match r {
                Ok(v) => evaluates_to(self.variable_manager.vars(), self.function_manager.view_map(), expr@, v@),
                Err(_) => may_fail(self.variable_manager.vars(), self.function_manager.view_map(), expr@),
            },
    {
        let (r, Ghost(t)) = self.evaluate_traced(expr, numbers, builtins);
        proof {
            match r {
                Ok(ref v) => assert(evaluates_by(self.variable_manager.vars(), self.function_manager.view_map(), expr@, t, v@)),
                Err(_) => assert(fails_by(self.variable_manager.vars(), self.function_manager.view_map(), expr@, t)),
            }
        }
        r
    }
}

} // verus!
