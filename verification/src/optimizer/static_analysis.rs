//! Static analysis of an expression before it runs: the type of each part,
//! the variables and functions it names, the errors it may meet and what
//! deserves a warning.
use vstd::prelude::*;
use crate::parser::ast::{Expr, ExprView, views, pair_views, texts, lemma_views, lemma_pair_views, copy_strings};
use crate::parser::tokens::{BinaryOp, UnaryOp};
use crate::value::{ValueView, DataType, data_type_of};
use crate::interpreter::variables::Scope;
use crate::error::DataCodeError;
use crate::text::{str_eq, push_string};
use vstd::hash_set::StringHashSet;
use vstd::hash_map::StringHashMap;

verus! {

/// The name of a data type, as `Debug` writes it.
pub open spec fn data_type_name(t: DataType) -> Seq<char> {
    match t {
        DataType::Integer => "Integer"@,
        DataType::Float => "Float"@,
        DataType::String => "String"@,
        DataType::Bool => "Bool"@,
        DataType::Null => "Null"@,
        DataType::Mixed => "Mixed"@,
    }
}

/// The name of a binary operator, as `Debug` writes it.
pub open spec fn op_name(op: BinaryOp) -> Seq<char> {
    match op {
        BinaryOp::Add => "Add"@,
        BinaryOp::Subtract => "Subtract"@,
        BinaryOp::Multiply => "Multiply"@,
        BinaryOp::Divide => "Divide"@,
        BinaryOp::Modulo => "Modulo"@,
        BinaryOp::PathJoin => "PathJoin"@,
        BinaryOp::Equal => "Equal"@,
        BinaryOp::NotEqual => "NotEqual"@,
        BinaryOp::Less => "Less"@,
        BinaryOp::Greater => "Greater"@,
        BinaryOp::LessEqual => "LessEqual"@,
        BinaryOp::GreaterEqual => "GreaterEqual"@,
        BinaryOp::And => "And"@,
        BinaryOp::Or => "Or"@,
    }
}

/// An integer or a float.
pub open spec fn is_number_type(t: DataType) -> bool {
    t == DataType::Integer || t == DataType::Float
}

/// The type of arithmetic on two numbers: integer when both are integers.
pub open spec fn arithmetic_type(l: DataType, r: DataType) -> DataType {
    if l == DataType::Integer && r == DataType::Integer { DataType::Integer } else { DataType::Float }
}

/// The type of a binary operation on operands of types `l` and `r`.
pub open spec fn binary_type(l: DataType, op: BinaryOp, r: DataType) -> DataType {
    match op {
        BinaryOp::Add =>
            if is_number_type(l) && is_number_type(r) { arithmetic_type(l, r) }
            else if l == DataType::String && r == DataType::String { DataType::String }
            else { DataType::Mixed },
        BinaryOp::Subtract | BinaryOp::Multiply | BinaryOp::Divide | BinaryOp::Modulo =>
            if is_number_type(l) && is_number_type(r) { arithmetic_type(l, r) } else { DataType::Mixed },
        BinaryOp::PathJoin => DataType::String,
        _ => DataType::Bool,
    }
}

/// The error that a binary operation on operands of types `l` and `r` may
/// meet, if any.
pub open spec fn binary_error(l: DataType, op: BinaryOp, r: DataType) -> Option<Seq<char>> {
    match op {
        BinaryOp::Add =>
            if binary_type(l, op, r) == DataType::Mixed {
                Some("Type mismatch in addition: "@ + data_type_name(l) + " + "@ + data_type_name(r))
            } else {
                None
            },
        BinaryOp::Subtract | BinaryOp::Multiply | BinaryOp::Divide | BinaryOp::Modulo =>
            if binary_type(l, op, r) == DataType::Mixed {
                Some("Arithmetic operation requires numbers: "@ + data_type_name(l) + " "@ + op_name(op) + " "@ + data_type_name(r))
            } else {
                None
            },
        BinaryOp::Less | BinaryOp::Greater | BinaryOp::LessEqual | BinaryOp::GreaterEqual =>
            if (is_number_type(l) && is_number_type(r)) || (l == DataType::String && r == DataType::String) {
                None
            } else {
                Some("Comparison requires compatible types: "@ + data_type_name(l) + " "@ + op_name(op) + " "@ + data_type_name(r))
            },
        _ => None,
    }
}

/// The type of a unary operation on an operand of type `t`.
pub open spec fn unary_type(op: UnaryOp, t: DataType) -> DataType {
    match op {
        UnaryOp::Not => DataType::Bool,
        UnaryOp::Minus => if is_number_type(t) { t } else { DataType::Mixed },
    }
}

/// The error that a unary operation on an operand of type `t` may meet.
pub open spec fn unary_error(op: UnaryOp, t: DataType) -> Option<Seq<char>> {
    match op {
        UnaryOp::Minus => if is_number_type(t) { None } else { Some("Unary minus requires number, got "@ + data_type_name(t)) },
        UnaryOp::Not => None,
    }
}

/// The functions that make or transform tables.
pub open spec fn is_table_function(name: Seq<char>) -> bool {
    name == "table_filter"@ || name == "table_where"@ || name == "table_select"@
        || name == "table_head"@ || name == "table_tail"@
}

/// The functions that the analysis knows.
pub open spec fn is_known_function(name: Seq<char>) -> bool {
    name == "table"@ || name == "table_create"@ || is_table_function(name)
        || name == "len"@ || name == "length"@ || name == "print"@ || name == "println"@
}

/// The type of a call of `name` with `n` arguments: `len` (or `length`)
/// of one argument is an integer, `print` (or `println`) gives nothing, and
/// any other call may give anything.
pub open spec fn call_type(name: Seq<char>, n: nat) -> DataType {
    if name == "table"@ || name == "table_create"@ || is_table_function(name) {
        DataType::Mixed
    } else if name == "len"@ || name == "length"@ {
        if n == 1 { DataType::Integer } else { DataType::Mixed }
    } else if name == "print"@ || name == "println"@ {
        DataType::Null
    } else {
        DataType::Mixed
    }
}

/// The error that a call of `name` with `n` arguments may meet: a table
/// function needs an argument, `len` exactly one.
pub open spec fn call_error(name: Seq<char>, n: nat) -> Option<Seq<char>> {
    if name == "table"@ || name == "table_create"@ {
        if n < 1 { Some("table() requires at least 1 argument"@) } else { None }
    } else if is_table_function(name) {
        if n < 1 { Some(name + "() requires at least 1 argument"@) } else { None }
    } else if name == "len"@ || name == "length"@ {
        if n != 1 { Some("len() requires exactly 1 argument"@) } else { None }
    } else {
        None
    }
}

/// The warning that a call of `name` gives: one for a function that the
/// analysis does not know.
pub open spec fn call_warning(name: Seq<char>) -> Option<Seq<char>> {
    if is_known_function(name) { None } else { Some("Unknown function: "@ + name) }
}

/// The error that indexing with an index of type `t` may meet: the index
/// must be a number or a string.
pub open spec fn index_error(t: DataType) -> Option<Seq<char>> {
    if is_number_type(t) || t == DataType::String { None } else { Some("Invalid index type: "@ + data_type_name(t)) }
}

/// The error for a variable that is not among the known ones.
pub open spec fn undefined_message(name: Seq<char>) -> Seq<char> {
    "Variable '"@ + name + "' may not be defined"@
}

/// The list holding the message, if there is one.
pub open spec fn listed(m: Option<Seq<char>>) -> Seq<Seq<char>> {
    match m {
        Some(x) => seq![x],
        None => Seq::empty(),
    }
}

/// The type of an expression, the variables `k` being known.
pub open spec fn expr_type(e: ExprView, k: Map<Seq<char>, ValueView>) -> DataType
    decreases e,
{
    match e {
        ExprView::Literal(v) => data_type_of(v),
        ExprView::Variable(n) => if k.contains_key(n) { data_type_of(k[n]) } else { DataType::Mixed },
        ExprView::Binary(l, op, r) => binary_type(expr_type(*l, k), op, expr_type(*r, k)),
        ExprView::Unary(op, x) => unary_type(op, expr_type(*x, k)),
        ExprView::FunctionCall(name, args) => call_type(name, args.len()),
        ExprView::TryBlock(..) | ExprView::ThrowStatement(_) => DataType::Null,
        _ => DataType::Mixed,
    }
}

/// The types of a list of expressions.
pub open spec fn types_list(es: Seq<ExprView>, k: Map<Seq<char>, ValueView>) -> Seq<DataType>
    decreases es,
{
    if es.len() == 0 {
        Seq::empty()
    } else {
        types_list(es.drop_last(), k).push(expr_type(es.last(), k))
    }
}

/// The errors that the analysis finds in an expression, in the order it
/// finds them: those of the parts first, left to right, then that of the
/// node itself.
pub open spec fn errors_of(e: ExprView, k: Map<Seq<char>, ValueView>) -> Seq<Seq<char>>
    decreases e,
{
    match e {
        ExprView::Variable(n) => if k.contains_key(n) { Seq::empty() } else { seq![undefined_message(n)] },
        ExprView::Binary(l, op, r) =>
            errors_of(*l, k) + errors_of(*r, k) + listed(binary_error(expr_type(*l, k), op, expr_type(*r, k))),
        ExprView::Unary(op, x) => errors_of(*x, k) + listed(unary_error(op, expr_type(*x, k))),
        ExprView::FunctionCall(name, args) => errors_list(args, k) + listed(call_error(name, args.len())),
        ExprView::Index(o, i) => errors_of(*o, k) + errors_of(*i, k) + listed(index_error(expr_type(*i, k))),
        ExprView::Member(o, _) => errors_of(*o, k),
        ExprView::ArrayLiteral(es) => errors_list(es, k),
        ExprView::ObjectLiteral(ps) => errors_pairs(ps, k),
        ExprView::Spread(x) => errors_of(*x, k),
        ExprView::ThrowStatement(x) => errors_of(*x, k),
        _ => Seq::empty(),
    }
}

/// The errors of a list of expressions, in order.
pub open spec fn errors_list(es: Seq<ExprView>, k: Map<Seq<char>, ValueView>) -> Seq<Seq<char>>
    decreases es,
{
    if es.len() == 0 { Seq::empty() } else { errors_list(es.drop_last(), k) + errors_of(es.last(), k) }
}

/// The errors of the values of a list of named expressions, in order.
pub open spec fn errors_pairs(ps: Seq<(Seq<char>, ExprView)>, k: Map<Seq<char>, ValueView>) -> Seq<Seq<char>>
    decreases ps,
{
    if ps.len() == 0 { Seq::empty() } else { errors_pairs(ps.drop_last(), k) + errors_of(ps.last().1, k) }
}

/// Whether all the types of a list are the same.
pub open spec fn all_same(ts: Seq<DataType>) -> bool {
    forall|i: int| 0 <= i < ts.len() ==> #[trigger] ts[i] == ts[0]
}

/// The warnings that the analysis gives for an expression, in order: a call
/// of an unknown function, an array whose elements are not all of one type.
pub open spec fn warnings_of(e: ExprView, k: Map<Seq<char>, ValueView>) -> Seq<Seq<char>>
    decreases e,
{
    match e {
        ExprView::Binary(l, _, r) => warnings_of(*l, k) + warnings_of(*r, k),
        ExprView::Unary(_, x) => warnings_of(*x, k),
        ExprView::FunctionCall(name, args) => warnings_list(args, k) + listed(call_warning(name)),
        ExprView::Index(o, i) => warnings_of(*o, k) + warnings_of(*i, k),
        ExprView::Member(o, _) => warnings_of(*o, k),
        ExprView::ArrayLiteral(es) => warnings_list(es, k)
            + (if es.len() > 0 && !all_same(types_list(es, k)) { seq!["Array contains mixed types"@] } else { Seq::empty() }),
        ExprView::ObjectLiteral(ps) => warnings_pairs(ps, k),
        ExprView::Spread(x) => warnings_of(*x, k),
        ExprView::ThrowStatement(x) => warnings_of(*x, k),
        _ => Seq::empty(),
    }
}

/// The warnings of a list of expressions, in order.
pub open spec fn warnings_list(es: Seq<ExprView>, k: Map<Seq<char>, ValueView>) -> Seq<Seq<char>>
    decreases es,
{
    if es.len() == 0 { Seq::empty() } else { warnings_list(es.drop_last(), k) + warnings_of(es.last(), k) }
}

/// The warnings of the values of a list of named expressions, in order.
pub open spec fn warnings_pairs(ps: Seq<(Seq<char>, ExprView)>, k: Map<Seq<char>, ValueView>) -> Seq<Seq<char>>
    decreases ps,
{
    if ps.len() == 0 { Seq::empty() } else { warnings_pairs(ps.drop_last(), k) + warnings_of(ps.last().1, k) }
}

/// The names of the variables that an expression reads.
pub open spec fn vars_of(e: ExprView) -> Set<Seq<char>>
    decreases e,
{
    match e {
        ExprView::Variable(n) => set![n],
        ExprView::Binary(l, _, r) => vars_of(*l) + vars_of(*r),
        ExprView::Unary(_, x) => vars_of(*x),
        ExprView::FunctionCall(_, args) => vars_list(args),
        ExprView::Index(o, i) => vars_of(*o) + vars_of(*i),
        ExprView::Member(o, _) => vars_of(*o),
        ExprView::ArrayLiteral(es) => vars_list(es),
        ExprView::ObjectLiteral(ps) => vars_pairs(ps),
        ExprView::Spread(x) => vars_of(*x),
        ExprView::ThrowStatement(x) => vars_of(*x),
        _ => Set::empty(),
    }
}

/// The variables of a list of expressions.
pub open spec fn vars_list(es: Seq<ExprView>) -> Set<Seq<char>>
    decreases es,
{
    if es.len() == 0 { Set::empty() } else { vars_list(es.drop_last()) + vars_of(es.last()) }
}

/// The variables of the values of a list of named expressions.
pub open spec fn vars_pairs(ps: Seq<(Seq<char>, ExprView)>) -> Set<Seq<char>>
    decreases ps,
{
    if ps.len() == 0 { Set::empty() } else { vars_pairs(ps.drop_last()) + vars_of(ps.last().1) }
}

/// The names of the functions that an expression calls.
pub open spec fn calls_of(e: ExprView) -> Set<Seq<char>>
    decreases e,
{
    match e {
        ExprView::Binary(l, _, r) => calls_of(*l) + calls_of(*r),
        ExprView::Unary(_, x) => calls_of(*x),
        ExprView::FunctionCall(name, args) => set![name] + calls_list(args),
        ExprView::Index(o, i) => calls_of(*o) + calls_of(*i),
        ExprView::Member(o, _) => calls_of(*o),
        ExprView::ArrayLiteral(es) => calls_list(es),
        ExprView::ObjectLiteral(ps) => calls_pairs(ps),
        ExprView::Spread(x) => calls_of(*x),
        ExprView::ThrowStatement(x) => calls_of(*x),
        _ => Set::empty(),
    }
}

/// The functions called in a list of expressions.
pub open spec fn calls_list(es: Seq<ExprView>) -> Set<Seq<char>>
    decreases es,
{
    if es.len() == 0 { Set::empty() } else { calls_list(es.drop_last()) + calls_of(es.last()) }
}

/// The functions called in the values of a list of named expressions.
pub open spec fn calls_pairs(ps: Seq<(Seq<char>, ExprView)>) -> Set<Seq<char>>
    decreases ps,
{
    if ps.len() == 0 { Set::empty() } else { calls_pairs(ps.drop_last()) + calls_of(ps.last().1) }
}

/// The type information recorded for an expression: for each member of an
/// object literal, `object.` and its name, with its value's type; a later
/// member of the same name overrides an earlier one.
pub open spec fn info_of(e: ExprView, k: Map<Seq<char>, ValueView>) -> Map<Seq<char>, DataType>
    decreases e,
{
    match e {
        ExprView::Binary(l, _, r) => info_of(*l, k).union_prefer_right(info_of(*r, k)),
        ExprView::Unary(_, x) => info_of(*x, k),
        ExprView::FunctionCall(_, args) => info_list(args, k),
        ExprView::Index(o, i) => info_of(*o, k).union_prefer_right(info_of(*i, k)),
        ExprView::Member(o, _) => info_of(*o, k),
        ExprView::ArrayLiteral(es) => info_list(es, k),
        ExprView::ObjectLiteral(ps) => info_pairs(ps, k),
        ExprView::Spread(x) => info_of(*x, k),
        ExprView::ThrowStatement(x) => info_of(*x, k),
        _ => Map::empty(),
    }
}

/// The type information of a list of expressions, later overriding earlier.
pub open spec fn info_list(es: Seq<ExprView>, k: Map<Seq<char>, ValueView>) -> Map<Seq<char>, DataType>
    decreases es,
{
    if es.len() == 0 { Map::empty() } else { info_list(es.drop_last(), k).union_prefer_right(info_of(es.last(), k)) }
}

/// The type information of the members of an object literal.
pub open spec fn info_pairs(ps: Seq<(Seq<char>, ExprView)>, k: Map<Seq<char>, ValueView>) -> Map<Seq<char>, DataType>
    decreases ps,
{
    if ps.len() == 0 {
        Map::empty()
    } else {
        info_pairs(ps.drop_last(), k).union_prefer_right(info_of(ps.last().1, k))
            .insert("object."@ + ps.last().0, expr_type(ps.last().1, k))
    }
}


/// `types_list` gives one type per expression.
pub proof fn lemma_types_list_len(es: Seq<ExprView>, k: Map<Seq<char>, ValueView>)
    ensures
        types_list(es, k).len() == es.len(),
    decreases es.len(),
{
    if es.len() > 0 {
        lemma_types_list_len(es.drop_last(), k);
    }
}

/// The text of an optional message.
pub open spec fn message_text(m: Option<String>) -> Option<Seq<char>> {
    match m {
        Some(s) => Some(s@),
        None => None,
    }
}

/// A string holding the text of `s`.
fn string_from(s: &str) -> (r: String)
    ensures
        r@ == s@,
{
    let mut r = String::new();
    push_string(&mut r, s);
    proof {
        assert(Seq::<char>::empty() + s@ =~= s@);
    }
    r
}

/// The name of a data type (see `data_type_name`).
fn data_type_text(t: DataType) -> (r: &'static str)
    ensures
        r@ == data_type_name(t),
{
    match t {
        DataType::Integer => "Integer",
        DataType::Float => "Float",
        DataType::String => "String",
        DataType::Bool => "Bool",
        DataType::Null => "Null",
        DataType::Mixed => "Mixed",
    }
}

/// The name of a binary operator (see `op_name`).
fn op_text(op: BinaryOp) -> (r: &'static str)
    ensures
        r@ == op_name(op),
{
    match op {
        BinaryOp::Add => "Add",
        BinaryOp::Subtract => "Subtract",
        BinaryOp::Multiply => "Multiply",
        BinaryOp::Divide => "Divide",
        BinaryOp::Modulo => "Modulo",
        BinaryOp::PathJoin => "PathJoin",
        BinaryOp::Equal => "Equal",
        BinaryOp::NotEqual => "NotEqual",
        BinaryOp::Less => "Less",
        BinaryOp::Greater => "Greater",
        BinaryOp::LessEqual => "LessEqual",
        BinaryOp::GreaterEqual => "GreaterEqual",
        BinaryOp::And => "And",
        BinaryOp::Or => "Or",
    }
}

/// Whether a type is a number type.
fn number_type(t: DataType) -> (r: bool)
    ensures
        r == is_number_type(t),
{
    t == DataType::Integer || t == DataType::Float
}

/// The type of a binary operation (see `binary_type`) with its error (see
/// `binary_error`).
fn analyze_binary_operation(l: DataType, op: BinaryOp, r: DataType) -> (res: (DataType, Option<String>))
    ensures
        res.0 == binary_type(l, op, r),
        message_text(res.1) == binary_error(l, op, r),
{
    let numbers = number_type(l) && number_type(r);
    let arithmetic = if l == DataType::Integer && r == DataType::Integer { DataType::Integer } else { DataType::Float };
    match op {
        BinaryOp::Add => {
            if numbers {
                (arithmetic, None)
            } else if l == DataType::String && r == DataType::String {
                (DataType::String, None)
            } else {
                let mut m = string_from("Type mismatch in addition: ");
                push_string(&mut m, data_type_text(l));
                push_string(&mut m, " + ");
                push_string(&mut m, data_type_text(r));
                (DataType::Mixed, Some(m))
            }
        },
        BinaryOp::Subtract | BinaryOp::Multiply | BinaryOp::Divide | BinaryOp::Modulo => {
            if numbers {
                (arithmetic, None)
            } else {
                let mut m = string_from("Arithmetic operation requires numbers: ");
                push_string(&mut m, data_type_text(l));
                push_string(&mut m, " ");
                push_string(&mut m, op_text(op));
                push_string(&mut m, " ");
                push_string(&mut m, data_type_text(r));
                (DataType::Mixed, Some(m))
            }
        },
        BinaryOp::Less | BinaryOp::Greater | BinaryOp::LessEqual | BinaryOp::GreaterEqual => {
            if numbers || (l == DataType::String && r == DataType::String) {
                (DataType::Bool, None)
            } else {
                let mut m = string_from("Comparison requires compatible types: ");
                push_string(&mut m, data_type_text(l));
                push_string(&mut m, " ");
                push_string(&mut m, op_text(op));
                push_string(&mut m, " ");
                push_string(&mut m, data_type_text(r));
                (DataType::Bool, Some(m))
            }
        },
        BinaryOp::PathJoin => (DataType::String, None),
        _ => (DataType::Bool, None),
    }
}

/// The type of a unary operation (see `unary_type`) with its error.
fn analyze_unary_operation(op: UnaryOp, t: DataType) -> (res: (DataType, Option<String>))
    ensures
        res.0 == unary_type(op, t),
        message_text(res.1) == unary_error(op, t),
{
    match op {
        UnaryOp::Not => (DataType::Bool, None),
        UnaryOp::Minus => {
            if number_type(t) {
                (t, None)
            } else {
                let mut m = string_from("Unary minus requires number, got ");
                push_string(&mut m, data_type_text(t));
                (DataType::Mixed, Some(m))
            }
        },
    }
}

/// The type of a call of `name` with `n` arguments (see `call_type`), with
/// its error (see `call_error`) and its warning (see `call_warning`).
fn analyze_function_call(name: &str, n: usize) -> (res: (DataType, Option<String>, Option<String>))
    ensures
        res.0 == call_type(name@, n as nat),
        message_text(res.1) == call_error(name@, n as nat),
        message_text(res.2) == call_warning(name@),
{
    if str_eq(name, "table") || str_eq(name, "table_create") {
        if n >= 1 {
            (DataType::Mixed, None, None)
        } else {
            (DataType::Mixed, Some(string_from("table() requires at least 1 argument")), None)
        }
    } else if str_eq(name, "table_filter") || str_eq(name, "table_where") || str_eq(name, "table_select")
        || str_eq(name, "table_head") || str_eq(name, "table_tail") {
        if n >= 1 {
            (DataType::Mixed, None, None)
        } else {
            let mut m = string_from(name);
            push_string(&mut m, "() requires at least 1 argument");
            (DataType::Mixed, Some(m), None)
        }
    } else if str_eq(name, "len") || str_eq(name, "length") {
        if n == 1 {
            (DataType::Integer, None, None)
        } else {
            (DataType::Mixed, Some(string_from("len() requires exactly 1 argument")), None)
        }
    } else if str_eq(name, "print") || str_eq(name, "println") {
        (DataType::Null, None, None)
    } else {
        let mut m = string_from("Unknown function: ");
        push_string(&mut m, name);
        (DataType::Mixed, None, Some(m))
    }
}

/// The error for an index of type `t` (see `index_error`).
fn analyze_indexing(t: DataType) -> (r: Option<String>)
    ensures
        message_text(r) == index_error(t),
{
    if number_type(t) || t == DataType::String {
        None
    } else {
        let mut m = string_from("Invalid index type: ");
        push_string(&mut m, data_type_text(t));
        Some(m)
    }
}

/// Appends the message, if there is one.
fn push_message(v: &mut Vec<String>, m: Option<String>)
    ensures
        texts(final(v)@) == texts(old(v)@) + listed(message_text(m)),
{
    match m {
        Some(x) => {
            let ghost xs = x@;
            v.push(x);
            assert(texts(v@) =~= texts(old(v)@) + seq![xs]);
        },
        None => {
            assert(texts(v@) =~= texts(old(v)@) + Seq::<Seq<char>>::empty());
        },
    }
}

/// Whether all the types of the list are the first one.
fn same_types(ts: &Vec<DataType>) -> (r: bool)
    ensures
        r == all_same(ts@),
{
    let mut i: usize = 0;
    while i < ts.len()
        invariant
            i <= ts.len(),
            forall|j: int| 0 <= j < i ==> #[trigger] ts@[j] == ts@[0],
        decreases ts.len() - i,
    {
        if ts[i] != ts[0] {
            return false;
        }
        i = i + 1;
    }
    true
}

/// What the analysis of one expression gathers.
struct AnalysisContext {
    variables_used: StringHashSet,
    functions_called: StringHashSet,
    potential_errors: Vec<String>,
    type_info: StringHashMap<DataType>,
}

impl AnalysisContext {
    fn new() -> (r: Self)
        ensures
            r.variables_used@ == Set::<Seq<char>>::empty(),
            r.functions_called@ == Set::<Seq<char>>::empty(),
            r.potential_errors@.len() == 0,
            r.type_info@ == Map::<Seq<char>, DataType>::empty(),
    {
        AnalysisContext {
            variables_used: StringHashSet::new(),
            functions_called: StringHashSet::new(),
            potential_errors: Vec::new(),
            type_info: StringHashMap::new(),
        }
    }
}


/// `c1` is `c0` with the errors `errs` appended and the variables `vars`,
/// the functions `calls` and the type information `info` added.
spec fn gathered(
    c0: AnalysisContext,
    c1: AnalysisContext,
    errs: Seq<Seq<char>>,
    vars: Set<Seq<char>>,
    calls: Set<Seq<char>>,
    info: Map<Seq<char>, DataType>,
) -> bool {
    &&& texts(c1.potential_errors@) == texts(c0.potential_errors@) + errs
    &&& c1.variables_used@ == c0.variables_used@ + vars
    &&& c1.functions_called@ == c0.functions_called@ + calls
    &&& c1.type_info@ == c0.type_info@.union_prefer_right(info)
}

proof fn lemma_gathered_none(c: AnalysisContext)
    ensures
        gathered(c, c, Seq::empty(), Set::empty(), Set::empty(), Map::empty()),
{
    assert(texts(c.potential_errors@) + Seq::<Seq<char>>::empty() =~= texts(c.potential_errors@));
    assert(c.variables_used@ + Set::<Seq<char>>::empty() =~= c.variables_used@);
    assert(c.functions_called@ + Set::<Seq<char>>::empty() =~= c.functions_called@);
    assert(c.type_info@.union_prefer_right(Map::<Seq<char>, DataType>::empty()) =~= c.type_info@);
}

proof fn lemma_gathered_trans(
    c0: AnalysisContext,
    c1: AnalysisContext,
    c2: AnalysisContext,
    e1: Seq<Seq<char>>,
    v1: Set<Seq<char>>,
    f1: Set<Seq<char>>,
    i1: Map<Seq<char>, DataType>,
    e2: Seq<Seq<char>>,
    v2: Set<Seq<char>>,
    f2: Set<Seq<char>>,
    i2: Map<Seq<char>, DataType>,
)
    requires
        gathered(c0, c1, e1, v1, f1, i1),
        gathered(c1, c2, e2, v2, f2, i2),
    ensures
        gathered(c0, c2, e1 + e2, v1 + v2, f1 + f2, i1.union_prefer_right(i2)),
{
    assert(texts(c0.potential_errors@) + e1 + e2 =~= texts(c0.potential_errors@) + (e1 + e2));
    assert(c0.variables_used@ + v1 + v2 =~= c0.variables_used@ + (v1 + v2));
    assert(c0.functions_called@ + f1 + f2 =~= c0.functions_called@ + (f1 + f2));
    assert(c0.type_info@.union_prefer_right(i1).union_prefer_right(i2)
        =~= c0.type_info@.union_prefer_right(i1.union_prefer_right(i2)));
}

/// The result of analyzing an expression.
pub struct AnalysisResult {
    pub variables_used: StringHashSet,
    pub functions_called: StringHashSet,
    pub potential_errors: Vec<String>,
    pub type_info: StringHashMap<DataType>,
    pub warnings: Vec<String>,
}

/// The result reports the analysis of `e`, the variables `k` being known:
/// the variables it reads, the functions it calls, its potential errors in
/// order, its type information, and the warnings `warnings`.
pub open spec fn reports(
    res: AnalysisResult,
    e: ExprView,
    k: Map<Seq<char>, ValueView>,
    warnings: Seq<Seq<char>>,
) -> bool {
    &&& res.variables_used@ == vars_of(e)
    &&& res.functions_called@ == calls_of(e)
    &&& texts(res.potential_errors@) == errors_of(e, k)
    &&& res.type_info@ == info_of(e, k)
    &&& texts(res.warnings@) == warnings
}

impl AnalysisResult {
    /// Whether the analysis found a potential error.
    pub fn has_errors(&self) -> (r: bool)
        ensures
            r == (self.potential_errors@.len() > 0),
    {
        self.potential_errors.len() > 0
    }

    /// Whether the analysis gave a warning.
    pub fn has_warnings(&self) -> (r: bool)
        ensures
            r == (self.warnings@.len() > 0),
    {
        self.warnings.len() > 0
    }

    /// The potential errors followed by the warnings.
    pub fn get_all_issues(&self) -> (r: Vec<String>)
        ensures
            texts(r@) == texts(self.potential_errors@) + texts(self.warnings@),
    {
        let mut issues = copy_strings(&self.potential_errors);
        let mut i: usize = 0;
        while i < self.warnings.len()
            invariant
                i <= self.warnings@.len(),
                texts(issues@) == texts(self.potential_errors@) + texts(self.warnings@).take(i as int),
            decreases self.warnings.len() - i,
        {
            let w = self.warnings[i].clone();
            let ghost before = issues@;
            issues.push(w);
            proof {
                assert(texts(issues@) =~= texts(before).push(self.warnings@[i as int]@));
                assert(texts(self.warnings@).take(i + 1) =~= texts(self.warnings@).take(i as int).push(self.warnings@[i as int]@));
            }
            i = i + 1;
        }
        assert(texts(self.warnings@).take(i as int) =~= texts(self.warnings@));
        issues
    }
}

/// The static analyzer: the warnings of all the analyses it has made, and a
/// count of errors.
pub struct StaticAnalyzer {
    error_count: usize,
    warnings: Vec<String>,
}

impl StaticAnalyzer {
    /// The warnings given so far.
    pub closed spec fn warning_texts(&self) -> Seq<Seq<char>> {
        texts(self.warnings@)
    }

    /// The count of errors.
    pub closed spec fn errors(&self) -> nat {
        self.error_count as nat
    }

    /// An analyzer with no warning and no error counted.
    pub fn new() -> (r: Self)
        ensures
            r.warning_texts() == Seq::<Seq<char>>::empty(),
            r.errors() == 0,
    {
        let r = StaticAnalyzer { error_count: 0, warnings: Vec::new() };
        assert(texts(r.warnings@) =~= Seq::<Seq<char>>::empty());
        r
    }

    /// The count of errors (the analyses count none).
    pub fn get_error_count(&self) -> (r: usize)
        ensures
            r == self.errors(),
    {
        self.error_count
    }

    /// The warnings given so far.
    pub fn get_warnings(&self) -> (r: &[String])
        ensures
            texts(r@) == self.warning_texts(),
    {
        self.warnings.as_slice()
    }

    /// Analyzes an expression with no variable known: every variable it
    /// reads is reported as possibly undefined. Always succeeds; the
    /// result's warnings are all the warnings given so far.
    pub fn analyze(&mut self, expr: &Expr) -> (r: Result<AnalysisResult, DataCodeError>)
        ensures
            final(self).warning_texts() == old(self).warning_texts() + warnings_of(expr@, Map::empty()),
            final(self).errors() == old(self).errors(),
            r matches Ok(res) && reports(res, expr@, Map::empty(), final(self).warning_texts()),
    {
        let known = Scope::new();
        self.analyze_with_context(expr, &known)
    }

    /// Analyzes an expression, the variables of `variables` being known.
    /// Always succeeds; the result's warnings are all the warnings given so
    /// far.
    pub fn analyze_with_context(&mut self, expr: &Expr, variables: &Scope) -> (r: Result<AnalysisResult, DataCodeError>)
        requires
            variables.wf(),
        ensures
            final(self).warning_texts() == old(self).warning_texts() + warnings_of(expr@, variables.view_map()),
            final(self).errors() == old(self).errors(),
            r matches Ok(res) && reports(res, expr@, variables.view_map(), final(self).warning_texts()),
    {
        let mut ctx = AnalysisContext::new();
        let ghost c0 = ctx;
        let _t = self.analyze_expression(expr, variables, &mut ctx);
        proof {
            let k = variables.view_map();
            assert(Set::<Seq<char>>::empty() + vars_of(expr@) =~= vars_of(expr@));
            assert(Set::<Seq<char>>::empty() + calls_of(expr@) =~= calls_of(expr@));
            assert(Seq::<Seq<char>>::empty() + errors_of(expr@, k) =~= errors_of(expr@, k));
            assert(texts(c0.potential_errors@) =~= Seq::<Seq<char>>::empty());
            assert(Map::<Seq<char>, DataType>::empty().union_prefer_right(info_of(expr@, k)) =~= info_of(expr@, k));
        }
        let warnings = copy_strings(&self.warnings);
        Ok(AnalysisResult {
            variables_used: ctx.variables_used,
            functions_called: ctx.functions_called,
            potential_errors: ctx.potential_errors,
            type_info: ctx.type_info,
            warnings,
        })
    }

    /// Analyzes an expression against the known variables: its type, with
    /// what it adds to the context and to the warnings.
    fn analyze_expression(&mut self, e: &Expr, known: &Scope, ctx: &mut AnalysisContext) -> (t: DataType)
        requires
            known.wf(),
        ensures
            t == expr_type(e@, known.view_map()),
            gathered(*old(ctx), *final(ctx), errors_of(e@, known.view_map()), vars_of(e@), calls_of(e@),
                info_of(e@, known.view_map())),
            final(self).warning_texts() == old(self).warning_texts() + warnings_of(e@, known.view_map()),
            final(self).errors() == old(self).errors(),
        decreases e,
    {
        let ghost k = known.view_map();
        let ghost c0 = *ctx;
        let ghost w0 = self.warning_texts();
        proof {
            lemma_gathered_none(c0);
            assert(w0 + Seq::<Seq<char>>::empty() =~= w0);
        }
        match e {
            Expr::Literal(v) => DataType::from_value(v),
            Expr::Variable(name) => {
                ctx.variables_used.insert(name.clone());
                let ghost c1 = *ctx;
                proof {
                    assert(c0.variables_used@.insert(name@) =~= c0.variables_used@ + set![name@]);
                    lemma_gathered_none(c1);
                }
                match known.get(name.as_str()) {
                    Some(value) => DataType::from_value(value),
                    None => {
                        let mut m = string_from("Variable '");
                        push_string(&mut m, name.as_str());
                        push_string(&mut m, "' may not be defined");
                        let ghost ms = m@;
                        ctx.potential_errors.push(m);
                        proof {
                            assert(texts(ctx.potential_errors@) =~= texts(c0.potential_errors@) + seq![ms]);
                        }
                        DataType::Mixed
                    },
                }
            },
            Expr::Binary { left, operator, right } => {
                let a = self.analyze_expression(left, known, ctx);
                let ghost c1 = *ctx;
                let b = self.analyze_expression(right, known, ctx);
                let ghost c2 = *ctx;
                let (t, m) = analyze_binary_operation(a, *operator, b);
                push_message(&mut ctx.potential_errors, m);
                proof {
                    lemma_gathered_trans(c0, c1, c2, errors_of((**left)@, k), vars_of((**left)@), calls_of((**left)@),
                        info_of((**left)@, k), errors_of((**right)@, k), vars_of((**right)@), calls_of((**right)@),
                        info_of((**right)@, k));
                    lemma_gathered_none(c2);
                    let i = info_of((**left)@, k).union_prefer_right(info_of((**right)@, k));
                    assert(ctx.type_info@ == c0.type_info@.union_prefer_right(i));
                    assert(texts(ctx.potential_errors@) =~= texts(c0.potential_errors@) + errors_of(e@, k));
                    assert(w0 + warnings_of((**left)@, k) + warnings_of((**right)@, k) =~= w0 + warnings_of(e@, k));
                }
                t
            },
            Expr::Unary { operator, operand } => {
                let a = self.analyze_expression(operand, known, ctx);
                let (t, m) = analyze_unary_operation(*operator, a);
                push_message(&mut ctx.potential_errors, m);
                proof {
                    assert(texts(ctx.potential_errors@) =~= texts(c0.potential_errors@) + errors_of(e@, k));
                }
                t
            },
            Expr::FunctionCall { name, args } => {
                ctx.functions_called.insert(name.clone());
                let ghost c1 = *ctx;
                proof {
                    lemma_views(args@);
                    assert(c0.functions_called@.insert(name@) =~= c0.functions_called@ + set![name@]);
                    lemma_gathered_none(c1);
                }
                let types = self.analyze_list(args, known, ctx);
                let ghost c2 = *ctx;
                let (t, m, w) = analyze_function_call(name.as_str(), types.len());
                push_message(&mut ctx.potential_errors, m);
                let ghost w1 = self.warning_texts();
                push_message(&mut self.warnings, w);
                proof {
                    let es = views(args@);
                    assert(types_list(es, k).len() == es.len()) by {
                        lemma_types_list_len(es, k);
                    }
                    lemma_gathered_trans(c0, c1, c2, Seq::empty(), Set::empty(), set![name@], Map::empty(),
                        errors_list(es, k), vars_list(es), calls_list(es), info_list(es, k));
                    assert(Seq::<Seq<char>>::empty() + errors_list(es, k) =~= errors_list(es, k));
                    assert(Set::<Seq<char>>::empty() + vars_list(es) =~= vars_list(es));
                    assert(Map::<Seq<char>, DataType>::empty().union_prefer_right(info_list(es, k)) =~= info_list(es, k));
                    assert(texts(ctx.potential_errors@) =~= texts(c0.potential_errors@) + errors_of(e@, k));
                    assert(self.warning_texts() =~= w0 + warnings_of(e@, k));
                }
                t
            },
            Expr::Index { object, index } => {
                let _a = self.analyze_expression(object, known, ctx);
                let ghost c1 = *ctx;
                let b = self.analyze_expression(index, known, ctx);
                let ghost c2 = *ctx;
                let m = analyze_indexing(b);
                push_message(&mut ctx.potential_errors, m);
                proof {
                    lemma_gathered_trans(c0, c1, c2, errors_of((**object)@, k), vars_of((**object)@), calls_of((**object)@),
                        info_of((**object)@, k), errors_of((**index)@, k), vars_of((**index)@), calls_of((**index)@),
                        info_of((**index)@, k));
                    assert(texts(ctx.potential_errors@) =~= texts(c0.potential_errors@) + errors_of(e@, k));
                    assert(w0 + warnings_of((**object)@, k) + warnings_of((**index)@, k) =~= w0 + warnings_of(e@, k));
                }
                DataType::Mixed
            },
            Expr::Member { object, member: _ } => {
                let _a = self.analyze_expression(object, known, ctx);
                DataType::Mixed
            },
            Expr::ArrayLiteral { elements } => {
                proof {
                    lemma_views(elements@);
                }
                let types = self.analyze_list(elements, known, ctx);
                let ghost w1 = self.warning_texts();
                if types.len() > 0 && !same_types(&types) {
                    let ghost before = self.warnings@;
                    self.warnings.push(string_from("Array contains mixed types"));
                    proof {
                        assert(texts(self.warnings@) =~= texts(before).push("Array contains mixed types"@));
                    }
                }
                proof {
                    let es = views(elements@);
                    lemma_types_list_len(es, k);
                    assert(self.warning_texts() =~= w0 + warnings_of(e@, k));
                }
                DataType::Mixed
            },
            Expr::ObjectLiteral { pairs } => {
                self.analyze_pairs(pairs, known, ctx);
                DataType::Mixed
            },
            Expr::Spread { expression } => {
                let _a = self.analyze_expression(expression, known, ctx);
                DataType::Mixed
            },
            Expr::TryBlock { .. } => DataType::Null,
            Expr::ThrowStatement { message } => {
                let _a = self.analyze_expression(message, known, ctx);
                DataType::Null
            },
        }
    }

    fn analyze_list(&mut self, v: &Vec<Expr>, known: &Scope, ctx: &mut AnalysisContext) -> (ts: Vec<DataType>)
        requires
            known.wf(),
        ensures
            ts@ == types_list(views(v@), known.view_map()),
            gathered(*old(ctx), *final(ctx), errors_list(views(v@), known.view_map()), vars_list(views(v@)),
                calls_list(views(v@)), info_list(views(v@), known.view_map())),
            final(self).warning_texts() == old(self).warning_texts() + warnings_list(views(v@), known.view_map()),
            final(self).errors() == old(self).errors(),
        decreases v,
    {
        let ghost k = known.view_map();
        let ghost es = views(v@);
        let ghost c0 = *ctx;
        let ghost w0 = self.warning_texts();
        proof {
            lemma_views(v@);
            lemma_gathered_none(c0);
            assert(es.take(0) =~= Seq::<ExprView>::empty());
            assert(w0 + Seq::<Seq<char>>::empty() =~= w0);
        }
        let mut ts: Vec<DataType> = Vec::new();
        let mut i: usize = 0;
        while i < v.len()
            invariant
                known.wf(),
                k == known.view_map(),
                i <= v.len(),
                es == views(v@),
                es.len() == v@.len(),
                forall|j: int| 0 <= j < v@.len() ==> #[trigger] es[j] == v@[j]@,
                ts@ == types_list(es.take(i as int), k),
                gathered(c0, *ctx, errors_list(es.take(i as int), k), vars_list(es.take(i as int)),
                    calls_list(es.take(i as int)), info_list(es.take(i as int), k)),
                self.warning_texts() == w0 + warnings_list(es.take(i as int), k),
                self.errors() == old(self).errors(),
            decreases v.len() - i,
        {
            proof {
                assert(decreases_to!(v => v@[i as int]));
            }
            let ghost c1 = *ctx;
            let ghost w1 = self.warning_texts();
            let t = self.analyze_expression(&v[i], known, ctx);
            proof {
                let p = es.take(i as int);
                let q = es.take(i + 1);
                assert(q.drop_last() =~= p);
                assert(q.last() == es[i as int]);
                lemma_gathered_trans(c0, c1, *ctx, errors_list(p, k), vars_list(p), calls_list(p), info_list(p, k),
                    errors_of(es[i as int], k), vars_of(es[i as int]), calls_of(es[i as int]), info_of(es[i as int], k));
                assert(w0 + warnings_list(p, k) + warnings_of(es[i as int], k) =~= w0 + warnings_list(q, k));
            }
            ts.push(t);
            i = i + 1;
        }
        proof {
            assert(es.take(i as int) =~= es);
        }
        ts
    }

    fn analyze_pairs(&mut self, v: &Vec<(String, Expr)>, known: &Scope, ctx: &mut AnalysisContext)
        requires
            known.wf(),
        ensures
            gathered(*old(ctx), *final(ctx), errors_pairs(pair_views(v@), known.view_map()),
                vars_pairs(pair_views(v@)), calls_pairs(pair_views(v@)), info_pairs(pair_views(v@), known.view_map())),
            final(self).warning_texts() == old(self).warning_texts() + warnings_pairs(pair_views(v@), known.view_map()),
            final(self).errors() == old(self).errors(),
        decreases v,
    {
        let ghost k = known.view_map();
        let ghost ps = pair_views(v@);
        let ghost c0 = *ctx;
        let ghost w0 = self.warning_texts();
        proof {
            lemma_pair_views(v@);
            lemma_gathered_none(c0);
            assert(ps.take(0) =~= Seq::<(Seq<char>, ExprView)>::empty());
            assert(w0 + Seq::<Seq<char>>::empty() =~= w0);
        }
        let mut i: usize = 0;
        while i < v.len()
            invariant
                known.wf(),
                k == known.view_map(),
                i <= v.len(),
                ps == pair_views(v@),
                ps.len() == v@.len(),
                forall|j: int| 0 <= j < v@.len() ==> #[trigger] ps[j] == (v@[j].0@, v@[j].1@),
                gathered(c0, *ctx, errors_pairs(ps.take(i as int), k), vars_pairs(ps.take(i as int)),
                    calls_pairs(ps.take(i as int)), info_pairs(ps.take(i as int), k)),
                self.warning_texts() == w0 + warnings_pairs(ps.take(i as int), k),
                self.errors() == old(self).errors(),
            decreases v.len() - i,
        {
            proof {
                assert(decreases_to!(v => v@[i as int].1));
            }
            let ghost c1 = *ctx;
            let t = self.analyze_expression(&v[i].1, known, ctx);
            let ghost c2 = *ctx;
            let mut key = string_from("object.");
            push_string(&mut key, v[i].0.as_str());
            let ghost key_text = key@;
            ctx.type_info.insert(key, t);
            proof {
                let p = ps.take(i as int);
                let q = ps.take(i + 1);
                let x = ps[i as int].1;
                assert(q.drop_last() =~= p);
                assert(q.last() == ps[i as int]);
                lemma_gathered_trans(c0, c1, c2, errors_pairs(p, k), vars_pairs(p), calls_pairs(p), info_pairs(p, k),
                    errors_of(x, k), vars_of(x), calls_of(x), info_of(x, k));
                let i2 = info_pairs(p, k).union_prefer_right(info_of(x, k));
                assert(c0.type_info@.union_prefer_right(i2).insert(key_text, t)
                    =~= c0.type_info@.union_prefer_right(i2.insert(key_text, t)));
                assert(w0 + warnings_pairs(p, k) + warnings_of(x, k) =~= w0 + warnings_pairs(q, k));
            }
            i = i + 1;
        }
        proof {
            assert(ps.take(i as int) =~= ps);
        }
    }

    /// Forgets the warnings and the count of errors.
    pub fn clear(&mut self)
        ensures
            final(self).warning_texts() == Seq::<Seq<char>>::empty(),
            final(self).errors() == 0,
    {
        self.error_count = 0;
        self.warnings.clear();
        assert(texts(self.warnings@) =~= Seq::<Seq<char>>::empty());
    }
}

} // verus!
