//! Running lines, `for` loops and calls of user functions: each line is read
//! as a statement (see `block_line`), its expressions are parsed and
//! evaluated, and its effect on the variables is made.
use vstd::prelude::*;
use crate::error::DataCodeError;
use crate::optimizer::ast::NumberArithmetic;
use crate::parser::ast::texts;
use crate::parser::tokens::{Expr as Tree, Node, nodes, named_nodes, lemma_nodes, lemma_named_nodes};
use crate::parser::Parser as TokenParser;
use crate::parser::opening;
use crate::parser::expressions::e_level;
use crate::text::{chars_of, owned, push_string, trim, starts_with};
use crate::value::{Value, ValueView, value_list, lemma_value_list, lemma_value_list_push};
use super::Interpreter;
use super::call_frame::{CallFrame, NumberText};
use super::execution::format_value_for_print;
use super::expressions::{Builtins, ExpressionEvaluator, binary_gives, binary_may_fail,
    unary_gives, member_value, index_value, member_of, index_of};
use crate::parser::tokens::UnaryOp;
use super::lines::{block_line, block_line_statement, LineStatement, StatementView};
use super::user_functions::UserFunction;
use super::blocks::{function_definition, parse_function_definition, syntax_error_with, split_if_statement,
    split_try_statement, try_parts, TryScan, optional_text, parse_for_header, for_loop_body, for_loop_end, function_definition_end, if_statement_end,
    try_statement_end, multiline_action, LineAction, line_action, function_end, if_end, try_end, for_scan,
    ForScan};
use super::control_flow::{ControlFlowHandler, truth};
use super::blocks::{if_parts, branch_views, optional_texts, IfStatementParts, for_header, ForHeader, body_scan};
use super::execution::{is_incomplete_assignment, incomplete_assignment, for_variable};
use crate::text::trimmed;
use super::variables::{bind_params, Vars, var_lookup, set_var, enter_loop, set_loop_var, exit_loop, enter_call, exit_call};

verus! {

/// How a run of lines ended: at its end, at a `break`, or at a `return`
/// with a value.
#[derive(Debug)]
pub enum Flow {
    Normal,
    Break,
    Return(Value),
}

/// How a run of lines ended, as the specifications see it; `Fail` for an
/// error.
pub enum FlowView {
    Normal,
    Break,
    Return(ValueView),
    Fail,
}

/// The view of the result of a run.
pub open spec fn flow_view(r: Result<Flow, DataCodeError>) -> FlowView {
    match r {
        Ok(Flow::Normal) => FlowView::Normal,
        Ok(Flow::Break) => FlowView::Break,
        Ok(Flow::Return(v)) => FlowView::Return(v@),
        Err(_) => FlowView::Fail,
    }
}

/// The view of the result of an evaluation: its value, or `None` for an
/// error.
pub open spec fn result_value(r: Result<Value, DataCodeError>) -> Option<ValueView> {
    match r {
        Ok(v) => Some(v@),
        Err(_) => None,
    }
}

/// `b` is `a` with at most its variables changed; the call stack may have
/// changed but has the same frames and limit.
pub open spec fn only_variables_changed(a: Interpreter, b: Interpreter) -> bool {
    &&& b == (Interpreter { variable_manager: b.variable_manager, call_stack: b.call_stack, ..a })
    &&& b.call_stack.frames() == a.call_stack.frames()
    &&& b.call_stack.limit() == a.call_stack.limit()
}

/// The views of a list of values.
pub open spec fn value_views(v: Seq<Value>) -> Seq<ValueView> {
    v.map_values(|x: Value| x@)
}

/// Each line is shorter than `0x7fff_ffff` characters.
pub open spec fn lines_short(ls: Seq<Seq<char>>) -> bool {
    forall|k: int| 0 <= k < ls.len() ==> (#[trigger] ls[k]).len() < 0x7fff_ffff
}

/// `prefix`, then `name`, then `suffix`.
fn framed_name(prefix: &str, name: &str, suffix: &str) -> (r: String)
    ensures
        r@ == prefix@ + name@ + suffix@,
{
    let mut m = owned(prefix);
    push_string(&mut m, name);
    push_string(&mut m, suffix);
    m
}

/// The value of a condition may let its branch run: a number (whose truth
/// the number arithmetic decides) or a true value.
pub open spec fn may_hold(v: ValueView) -> bool {
    v is Number || truth(v)
}

/// The value of a condition may pass its branch by: a number or a false
/// value.
pub open spec fn may_not_hold(v: ValueView) -> bool {
    v is Number || !truth(v)
}

/// Running a body, unless one of its lines is `0x7fff_ffff` characters or
/// longer, which fails and changes nothing.
pub open spec fn guarded_body_runs(
    s: Vars,
    fns: Map<Seq<char>, UserFunction>,
    room: nat,
    in_function: bool,
    in_loop: bool,
    body: Seq<Seq<char>>,
    out: FlowView,
    sf: Vars,
) -> bool {
    if lines_short(body) {
        body_runs(s, fns, room, in_function, in_loop, body, out, sf)
    } else {
        out == FlowView::Fail && sf == s
    }
}

/// The branches of an `if` from state `s` end as `out` in state `sf`, with
/// `conds` how the conditions were evaluated: the condition of the first
/// branch is evaluated (see `text_evals`, user functions called; a failure
/// fails); when its value holds, that branch's body runs; when not, the
/// next branch is tried; after the last, the `else` body runs, if there is
/// one. Each part runs on the variables the one before left.
pub open spec fn if_by(
    s: Vars,
    fns: Map<Seq<char>, UserFunction>,
    room: nat,
    in_function: bool,
    in_loop: bool,
    blocks: Seq<(Seq<char>, Seq<Seq<char>>)>,
    else_body: Option<Seq<Seq<char>>>,
    conds: Seq<ETrace>,
    out: FlowView,
    sf: Vars,
) -> bool
    decreases blocks.len(),
{
    if blocks.len() == 0 {
        match else_body {
            Some(b) => guarded_body_runs(s, fns, room, in_function, in_loop, b, out, sf),
            None => out == FlowView::Normal && sf == s,
        }
    } else {
        &&& conds.len() > 0
        &&& text_evals(s, fns, room, in_loop, blocks[0].0, conds[0])
        &&& match conds[0].val {
            None => out == FlowView::Fail && sf == conds[0].end,
            Some(c) => {
                ||| (may_hold(c) && guarded_body_runs(conds[0].end, fns, room, in_function, in_loop, blocks[0].1, out,
                    sf))
                ||| (may_not_hold(c) && if_by(conds[0].end, fns, room, in_function, in_loop, blocks.drop_first(),
                    else_body, conds.drop_first(), out, sf))
            },
        }
    }
}

/// An `if` whose lines are `ls` may end as `out` in state `sf` (see
/// `if_parts` and `if_by`); a malformed `if` fails and changes nothing.
pub open spec fn if_runs(
    s: Vars,
    fns: Map<Seq<char>, UserFunction>,
    room: nat,
    in_function: bool,
    in_loop: bool,
    ls: Seq<Seq<char>>,
    out: FlowView,
    sf: Vars,
) -> bool {
    match if_parts(ls) {
        Err(_) => out == FlowView::Fail && sf == s,
        Ok((blocks, else_body)) => exists|conds: Seq<ETrace>|
            #[trigger] if_by(s, fns, room, in_function, in_loop, blocks, else_body, conds, out, sf),
    }
}

/// A `for` loop whose lines are `ls` may end as `out` in state `sf`: its
/// header (see `for_header`) must name one variable; the iterated text is
/// evaluated (see `text_evals`, user functions called) and must give a
/// list; the loop then runs over the list's elements (see `loop_runs`) with
/// the body found by `body_scan`, unless a body line is too long or the
/// count of active loops is full (`full`), which fails. A failure before
/// the loop runs keeps what the evaluation changed.
pub open spec fn for_runs(
    s: Vars,
    fns: Map<Seq<char>, UserFunction>,
    room: nat,
    in_function: bool,
    in_loop: bool,
    full: bool,
    ls: Seq<Seq<char>>,
    out: FlowView,
    sf: Vars,
) -> bool {
    match for_header(ls[0]) {
        ForHeader::Header(vars, iter) => if vars.len() != 1 {
            out == FlowView::Fail && sf == s
        } else {
            exists|et: ETrace| #[trigger] text_evals(s, fns, room, in_loop, iter, et) && match et.val {
                Some(ValueView::Array(items)) => {
                    let body = body_scan(ls, 1, Seq::empty(), 0, 0, Seq::empty(), vars[0]);
                    if !lines_short(body) || full {
                        out == FlowView::Fail && sf == et.end
                    } else {
                        loop_runs(et.end, fns, room, in_function, vars[0], items, body, out, sf)
                    }
                },
                _ => out == FlowView::Fail && sf == et.end,
            }
        },
        _ => out == FlowView::Fail && sf == s,
    }
}

/// The states a `try` statement passes through: after its `try` part,
/// after its `catch` part (with the message its variable was set to), and
/// after its `finally` part.
pub struct TryTrace {
    pub after_try: (FlowView, Vars),
    pub message: Seq<char>,
    pub after_catch: (FlowView, Vars),
    pub after_finally: (FlowView, Vars),
}

/// The parts `p` of a `try` statement run from state `s` through the
/// states of `t` and end as `out` in state `sf`: the `try` part runs in a
/// new loop scope; when it fails and there is a `catch` part, the catch
/// variable (if any) is set to the failure's message and the `catch` part
/// runs, and with no `catch` part the failure stays; then the `finally`
/// part runs, if there is one, and its failure replaces the outcome; last,
/// the loop scope is left.
pub open spec fn try_by(
    s: Vars,
    fns: Map<Seq<char>, UserFunction>,
    room: nat,
    in_function: bool,
    in_loop: bool,
    p: TryScan,
    t: TryTrace,
    out: FlowView,
    sf: Vars,
) -> bool {
    let (o1, s1) = t.after_try;
    let (o2, s2) = t.after_catch;
    let (o3, s3) = t.after_finally;
    &&& body_runs(enter_loop(s), fns, room, in_function, in_loop, p.try_body, o1, s1)
    &&& if o1 == FlowView::Fail && p.catch_body.len() > 0 {
        let sc = match p.catch_var {
            Some(v) => set_var(s1, v, ValueView::String(t.message), false),
            None => s1,
        };
        body_runs(sc, fns, room, in_function, in_loop, p.catch_body, o2, s2)
    } else {
        o2 == o1 && s2 == s1
    }
    &&& if p.finally_body.len() > 0 {
        body_runs(s2, fns, room, in_function, in_loop, p.finally_body, o3, s3)
            && out == (if o3 == FlowView::Fail { FlowView::Fail } else { o2 })
    } else {
        o3 == o2 && s3 == s2 && out == o2
    }
    &&& sf == exit_loop(s3)
}

/// A `try` statement whose lines are `ls` may end as `out` in state `sf`
/// (see `try_parts` and `try_by`); when its blocks are full (`full`) or a
/// line of a part is too long, it fails and changes nothing.
pub open spec fn try_runs(
    s: Vars,
    fns: Map<Seq<char>, UserFunction>,
    room: nat,
    in_function: bool,
    in_loop: bool,
    full: bool,
    ls: Seq<Seq<char>>,
    out: FlowView,
    sf: Vars,
) -> bool {
    let p = try_parts(ls);
    if full || !lines_short(p.catch_body) || !lines_short(p.finally_body) || !lines_short(p.try_body) {
        out == FlowView::Fail && sf == s
    } else {
        exists|t: TryTrace| #[trigger] try_by(s, fns, room, in_function, in_loop, p, t, out, sf)
    }
}

/// One step of a program: how it ended, the variables and functions after
/// it, and the index of the line after it.
pub struct ProgramStep {
    pub out: FlowView,
    pub vars: Vars,
    pub fns: Map<Seq<char>, UserFunction>,
    pub next: int,
}

/// The index after a block of lines that starts at `i` and whose last line
/// is `end`, with the lines' end for a last line outside them.
pub open spec fn after_block(i: int, end: int, n: int) -> int {
    if end < n && end >= i { end + 1 } else { n }
}

/// A step of a program whose lines are `ls`, at line `i`, from variables
/// `s` and functions `fns` (see `line_action`): a blank line or a comment
/// changes nothing; a `"""` comment that is not closed fails; a function
/// definition up to its `end` defines the function (a malformed one
/// fails); a `for` loop, an `if` and a `try` run as a whole, up to the line
/// that closes them (see `for_runs`, `if_runs`, `try_runs`; a `for` loop
/// that is not closed fails); a declaration that spans lines runs joined
/// (see `joined_declaration`; too long a text fails); any other line runs
/// on its own (see `line_runs`). A `return` may stand where a function
/// scope is open or `frames`; `in_loop`, `loop_full` and `try_full` say
/// whether a loop runs, whether no other loop may start, and whether no
/// other `try` may start.
pub open spec fn program_step(
    s: Vars,
    fns: Map<Seq<char>, UserFunction>,
    room: nat,
    frames: bool,
    in_loop: bool,
    loop_full: bool,
    try_full: bool,
    ls: Seq<Seq<char>>,
    i: int,
    st: ProgramStep,
) -> bool {
    let n = ls.len() as int;
    let in_function = s.calls.len() > 0 || frames;
    match line_action(ls, i) {
        LineAction::Skip => st == ProgramStep { out: FlowView::Normal, vars: s, fns, next: i + 1 },
        LineAction::CommentUntil(j) => st == ProgramStep {
            out: FlowView::Normal,
            vars: s,
            fns,
            next: if j >= i && j < n { j + 1 } else { i + 1 },
        },
        LineAction::UnclosedComment => st.out == FlowView::Fail && st.vars == s && st.fns == fns,
        LineAction::FunctionDefinition => {
            let stop = after_block(i, function_end(ls, i + 1), n);
            &&& st.vars == s
            &&& st.next == stop
            &&& match function_definition(ls.subrange(i, stop)) {
                Ok((name, params, body, global)) => {
                    &&& st.out == FlowView::Normal
                    &&& st.fns.contains_key(name)
                    &&& st.fns == fns.insert(name, st.fns[name])
                    &&& texts(st.fns[name].parameters@) == params
                    &&& texts(st.fns[name].body@) == body
                    &&& st.fns[name].is_global == global
                },
                Err(_) => st.out == FlowView::Fail && st.fns == fns,
            }
        },
        LineAction::ForLoop => st.fns == fns && match for_variable(ls[i]) {
            None => st.out == FlowView::Fail && st.vars == s,
            Some(v) => match for_scan(ls, i + 1, seq![v], 0, 0) {
                ForScan::End(e) => {
                    let stop = after_block(i, e, n);
                    st.next == stop && for_runs(s, fns, room, in_function, in_loop, loop_full, ls.subrange(i, stop), st.out, st.vars)
                },
                _ => st.out == FlowView::Fail && st.vars == s,
            },
        },
        LineAction::IfStatement => {
            let stop = after_block(i, if_end(ls, i + 1, 1), n);
            st.fns == fns && st.next == stop && if_runs(s, fns, room, in_function, in_loop, ls.subrange(i, stop), st.out,
                st.vars)
        },
        LineAction::TryStatement => {
            let stop = after_block(i, try_end(ls, i + 1, 1), n);
            st.fns == fns && st.next == stop && try_runs(s, fns, room, in_function, in_loop, try_full, ls.subrange(i, stop),
                st.out, st.vars)
        },
        LineAction::MultilineAssignment => {
            let (j, stop) = joined_declaration(ls, i + 1, ls[i]);
            &&& st.fns == fns
            &&& st.next == stop
            &&& if j.len() >= 0x7fff_ffff {
                st.out == FlowView::Fail && st.vars == s
            } else {
                line_runs(s, fns, room, j, in_function, in_loop, st.out, st.vars)
            }
        },
        LineAction::Simple => st.fns == fns && st.next == i + 1 && line_runs(s, fns, room, ls[i], in_function, in_loop,
            st.out, st.vars),
    }
}

/// The lines `ls` of a program, from line `i`, run from variables `s` and
/// functions `fns` along the steps `t` and end as `out` with variables
/// `sf` and functions `fnsf`: the steps run in order (see `program_step`)
/// while each ends normally; the first that ends otherwise ends the run as
/// it ended.
pub open spec fn program_by(
    s: Vars,
    fns: Map<Seq<char>, UserFunction>,
    room: nat,
    frames: bool,
    in_loop: bool,
    loop_full: bool,
    try_full: bool,
    ls: Seq<Seq<char>>,
    i: int,
    t: Seq<ProgramStep>,
    out: FlowView,
    sf: Vars,
    fnsf: Map<Seq<char>, UserFunction>,
) -> bool
    decreases ls.len() - i,
{
    if !(0 <= i < ls.len()) {
        out == FlowView::Normal && sf == s && fnsf == fns
    } else {
        &&& t.len() > 0
        &&& program_step(s, fns, room, frames, in_loop, loop_full, try_full, ls, i, t[0])
        &&& if t[0].out == FlowView::Normal {
            &&& i < t[0].next <= ls.len()
            &&& program_by(t[0].vars, t[0].fns, room, frames, in_loop, loop_full, try_full, ls, t[0].next, t.drop_first(),
                out, sf, fnsf)
        } else {
            out == t[0].out && sf == t[0].vars && fnsf == t[0].fns
        }
    }
}

/// The lines `ls` of a program may end as `out` with variables `sf` and
/// functions `fnsf` (see `program_by`).
pub open spec fn program_runs(
    s: Vars,
    fns: Map<Seq<char>, UserFunction>,
    room: nat,
    frames: bool,
    in_loop: bool,
    loop_full: bool,
    try_full: bool,
    ls: Seq<Seq<char>>,
    out: FlowView,
    sf: Vars,
    fnsf: Map<Seq<char>, UserFunction>,
) -> bool {
    exists|t: Seq<ProgramStep>| #[trigger] program_by(s, fns, room, frames, in_loop, loop_full, try_full, ls, 0, t, out, sf,
        fnsf)
}

/// A step that ends normally moves on to a later line, at most to the
/// lines' end.
pub proof fn lemma_step_moves_on(
    s: Vars,
    fns: Map<Seq<char>, UserFunction>,
    room: nat,
    frames: bool,
    in_loop: bool,
    loop_full: bool,
    try_full: bool,
    ls: Seq<Seq<char>>,
    i: int,
    st: ProgramStep,
)
    requires
        0 <= i < ls.len(),
        program_step(s, fns, room, frames, in_loop, loop_full, try_full, ls, i, st),
        st.out == FlowView::Normal,
    ensures
        i < st.next <= ls.len(),
{
    match line_action(ls, i) {
        LineAction::MultilineAssignment => {
            lemma_joined_declaration_ends(ls, i + 1, ls[i]);
        },
        _ => {},
    }
}

/// The index after a declaration that spans lines is after its first line
/// and at most the lines' end.
pub proof fn lemma_joined_declaration_ends(ls: Seq<Seq<char>>, i: int, acc: Seq<char>)
    requires
        i >= 1,
    ensures
        i - 1 < joined_declaration(ls, i, acc).1 <= ls.len() || !(i - 1 < ls.len()),
    decreases ls.len() - i,
{
    if 0 <= i < ls.len() {
        let j = acc + seq!['\n'] + ls[i];
        if !(j.len() >= 0x7fff_ffff || !incomplete_assignment(j)) {
            lemma_joined_declaration_ends(ls, i + 1, j);
        }
    }
}

/// No line is `for do` once trimmed.
pub open spec fn no_bare_for(ls: Seq<Seq<char>>) -> bool {
    forall|k: int| 0 <= k < ls.len() ==> trimmed(#[trigger] ls[k]) != seq!['f', 'o', 'r', ' ', 'd', 'o']
}

/// The positional argument values of a call whose arguments from `k` on
/// are those of `args` and whose values are `vals` (see `positional`).
fn expand_from(args: &Vec<Tree>, vals: &Vec<Value>, k: usize) -> (r: Option<Vec<Value>>)
    requires
        k <= args@.len(),
        args@.len() == vals@.len(),
    ensures
        match r {
            Some(v) => positional(nodes(args@).skip(k as int), value_list(vals@).skip(k as int)) == Some(value_list(v@)),
            None => positional(nodes(args@).skip(k as int), value_list(vals@).skip(k as int)) is None,
        },
    decreases args@.len() - k,
{
    proof {
        lemma_nodes(args@);
        lemma_value_list(vals@);
    }
    let ghost a = nodes(args@).skip(k as int);
    let ghost vs = value_list(vals@).skip(k as int);
    if k >= args.len() {
        proof { lemma_value_list(Seq::<Value>::empty()); }
        return Some(Vec::new());
    }
    proof {
        assert(a.subrange(1, a.len() as int) =~= nodes(args@).skip(k + 1));
        assert(vs.subrange(1, vs.len() as int) =~= value_list(vals@).skip(k + 1));
        assert(a[0] == args@[k as int]@);
        assert(vs[0] == vals@[k as int]@);
    }
    let rest = match expand_from(args, vals, k + 1) {
        Some(r) => r,
        None => return None,
    };
    let mut piece: Vec<Value> = match &args[k] {
        Tree::Spread { .. } => match &vals[k] {
            Value::Array(items) => Value::copy_list(items),
            _ => return None,
        },
        _ => {
            let mut one: Vec<Value> = Vec::new();
            one.push(vals[k].copy());
            proof {
                lemma_value_list(one@);
                assert(value_list(one@) =~= seq![vals@[k as int]@]);
            }
            one
        },
    };
    let ghost pold = piece@;
    let mut rest = rest;
    let ghost rold = rest@;
    piece.append(&mut rest);
    proof {
        lemma_value_list(pold);
        lemma_value_list(rold);
        lemma_value_list(piece@);
        assert(piece@ =~= pold + rold);
        assert(value_list(piece@) =~= value_list(pold) + value_list(rold));
    }
    Some(piece)
}

/// Whether a line is `for do` once trimmed (see `no_bare_for`).
fn has_bare_for(lines: &Vec<String>) -> (r: bool)
    ensures
        r == !no_bare_for(texts(lines@)),
{
    let bare = ['f', 'o', 'r', ' ', 'd', 'o'];
    let mut i: usize = 0;
    while i < lines.len()
        invariant
            i <= lines@.len(),
            bare@ == seq!['f', 'o', 'r', ' ', 'd', 'o'],
            forall|k: int| 0 <= k < i ==> trimmed(#[trigger] texts(lines@)[k]) != seq!['f', 'o', 'r', ' ', 'd', 'o'],
        decreases lines.len() - i,
    {
        let cs = chars_of(lines[i].as_str());
        let t = trim(cs.as_slice());
        proof { assert(texts(lines@)[i as int] == lines@[i as int]@); }
        if t.len() == 6 && starts_with(t.as_slice(), bare.as_slice()) {
            proof {
                assert(t@.take(6) =~= t@);
                assert(!no_bare_for(texts(lines@)));
            }
            return true;
        }
        proof {
            if t@ == seq!['f', 'o', 'r', ' ', 'd', 'o'] {
                assert(t@.take(6) =~= t@);
            }
        }
        i = i + 1;
    }
    false
}

/// Whether each line is shorter than `0x7fff_ffff` characters.
fn all_short(v: &Vec<String>) -> (r: bool)
    ensures
        r == lines_short(texts(v@)),
{
    let mut i: usize = 0;
    while i < v.len()
        invariant
            i <= v@.len(),
            forall|k: int| 0 <= k < i ==> (#[trigger] texts(v@)[k]).len() < 0x7fff_ffff,
        decreases v.len() - i,
    {
        if chars_of(v[i].as_str()).len() >= 0x7fff_ffff {
            proof {
                assert(texts(v@)[i as int] == v@[i as int]@);
                assert(!lines_short(texts(v@)));
            }
            return false;
        }
        proof { assert(texts(v@)[i as int] == v@[i as int]@); }
        i = i + 1;
    }
    true
}

/// Lines `start..stop`, copied.
fn lines_between(lines: &Vec<String>, start: usize, stop: usize) -> (r: Vec<String>)
    requires
        start < stop <= lines@.len(),
    ensures
        texts(r@) == texts(lines@).subrange(start as int, stop as int),
        r@.len() > 0,
{
    let mut r: Vec<String> = Vec::new();
    let mut i = start;
    while i < stop
        invariant
            start <= i <= stop,
            stop <= lines@.len(),
            texts(r@) == texts(lines@).subrange(start as int, i as int),
        decreases stop - i,
    {
        let ghost before = r@;
        r.push(lines[i].clone());
        proof {
            assert(texts(r@) =~= texts(before).push(lines@[i as int]@));
            assert(texts(lines@).subrange(start as int, i + 1) =~= texts(lines@).subrange(start as int, i as int).push(lines@[i as int]@));
        }
        i = i + 1;
    }
    r
}

/// The declaration that spans lines, from the text `acc` joined so far and
/// the next line `i`, and the index after its last line: the next line is
/// added after a line feed, until the joined text is no longer an
/// incomplete declaration (see `incomplete_assignment`), or the lines end.
pub open spec fn joined_declaration(ls: Seq<Seq<char>>, i: int, acc: Seq<char>) -> (Seq<char>, int)
    decreases ls.len() - i,
{
    if !(0 <= i < ls.len()) {
        (acc, ls.len() as int)
    } else {
        let j = acc + seq!['\n'] + ls[i];
        if j.len() >= 0x7fff_ffff || !incomplete_assignment(j) {
            (j, i + 1)
        } else {
            joined_declaration(ls, i + 1, j)
        }
    }
}

/// The declaration that spans lines from `start` and the index after its
/// last line (see `joined_declaration`).
fn join_declaration(lines: &Vec<String>, start: usize) -> (r: (String, usize))
    requires
        start < lines@.len(),
    ensures
        start < r.1 <= lines@.len(),
        (r.0@, r.1 as int) == joined_declaration(texts(lines@), start + 1, texts(lines@)[start as int]),
{
    let ghost ls = texts(lines@);
    let n = lines.len();
    let mut joined = lines[start].clone();
    let mut i = start + 1;
    proof { assert(ls[start as int] == lines@[start as int]@); }
    while i < n
        invariant
            start < i <= n,
            n == lines@.len(),
            ls == texts(lines@),
            joined_declaration(ls, start + 1, ls[start as int]) == joined_declaration(ls, i as int, joined@),
        decreases n - i,
    {
        proof {
            assert(ls[i as int] == lines@[i as int]@);
            reveal_strlit("\n");
        }
        let ghost before = joined@;
        push_string(&mut joined, "\n");
        push_string(&mut joined, lines[i].as_str());
        proof {
            assert("\n"@ =~= seq!['\n']);
            assert(joined@ =~= before + seq!['\n'] + ls[i as int]);
        }
        let c = chars_of(joined.as_str());
        if c.len() >= 0x7fff_ffff || !is_incomplete_assignment(joined.as_str()) {
            return (joined, i + 1);
        }
        i = i + 1;
    }
    (joined, n)
}

/// How an expression was evaluated where user functions may be called: how
/// its operands, elements or arguments were evaluated, in order and as far
/// as evaluation went; for a call of a user function, how the call ran; its
/// value (`None` for an error); and the variables after it.
pub struct ETrace {
    pub kids: Seq<ETrace>,
    pub call: Seq<CallTrace>,
    pub val: Option<ValueView>,
    pub end: Vars,
}

/// How a call of a user function ran: the run of its body, how the body
/// ended, and the variables at the body's end.
pub struct CallTrace {
    pub lines: BodyTrace,
    pub out: FlowView,
    pub last: Vars,
}

/// How a run of lines went: the variables after each line, how each line
/// ended, and how each line's expressions were evaluated.
pub struct BodyTrace {
    pub states: Seq<Vars>,
    pub outs: Seq<FlowView>,
    pub evals: Seq<ETrace>,
}

/// The evaluations `ts` of a list of `n` expressions stop at the first
/// failure: each but the last has a value, and a list cut short ends with
/// a failure.
pub open spec fn list_shape(n: nat, ts: Seq<ETrace>) -> bool {
    &&& ts.len() <= n
    &&& forall|j: int| 0 <= j < ts.len() - 1 ==> (#[trigger] ts[j]).val is Some
    &&& ts.len() < n ==> ts.len() > 0 && ts.last().val is None
}

/// All `n` expressions of a list have a value.
pub open spec fn list_ok(n: nat, ts: Seq<ETrace>) -> bool {
    ts.len() == n && forall|j: int| 0 <= j < ts.len() ==> (#[trigger] ts[j]).val is Some
}

/// The values of the evaluations of a list.
pub open spec fn list_values(ts: Seq<ETrace>) -> Seq<ValueView> {
    ts.map_values(|t: ETrace| match t.val {
        Some(v) => v,
        None => ValueView::Null,
    })
}

/// The variables after the evaluations of a list, from `s`.
pub open spec fn list_end(s: Vars, ts: Seq<ETrace>) -> Vars {
    if ts.len() == 0 { s } else { ts.last().end }
}

/// The expressions `es` are evaluated in order from `s` along `ts` (see
/// `ceval_by`), each from the variables the one before left, until one
/// fails.
pub open spec fn ceval_list_by(
    s: Vars,
    fns: Map<Seq<char>, UserFunction>,
    room: nat,
    in_loop: bool,
    es: Seq<Node>,
    ts: Seq<ETrace>,
) -> bool
    decreases ts, 0int,
{
    if ts.len() == 0 || es.len() == 0 {
        true
    } else {
        &&& ceval_by(s, fns, room, in_loop, es[0], ts[0])
        &&& (ts[0].val is Some ==> ceval_list_by(ts[0].end, fns, room, in_loop, es.subrange(1, es.len() as int),
            ts.subrange(1, ts.len() as int)))
    }
}

/// The expression evaluated for an argument of a call: the expression
/// after `*` for a spread argument, else the argument itself.
pub open spec fn arg_expr(a: Node) -> Node {
    match a {
        Node::Spread(x) => *x,
        _ => a,
    }
}

/// The expressions evaluated for the arguments of a call.
pub open spec fn arg_exprs(args: Seq<Node>) -> Seq<Node> {
    args.map_values(|a: Node| arg_expr(a))
}

/// The expressions evaluated for a list: those of `arg_exprs` for the
/// arguments of a call (`spread`), else the list itself.
pub open spec fn arg_list(spread: bool, es: Seq<Node>) -> Seq<Node> {
    if spread { arg_exprs(es) } else { es }
}

/// The expressions of the named arguments of a call.
pub open spec fn named_exprs(named: Seq<(Seq<char>, Node)>) -> Seq<Node> {
    named.map_values(|p: (Seq<char>, Node)| p.1)
}

/// The positional argument values of a call whose arguments are `args`
/// and whose evaluated values are `vals`: each value in order, with the
/// elements of a list in place of a spread argument; `None` when a spread
/// argument is not a list.
pub open spec fn positional(args: Seq<Node>, vals: Seq<ValueView>) -> Option<Seq<ValueView>>
    decreases args.len(),
{
    if args.len() == 0 || vals.len() == 0 {
        Some(Seq::empty())
    } else {
        match positional(args.subrange(1, args.len() as int), vals.subrange(1, vals.len() as int)) {
            None => None,
            Some(rest) => match args[0] {
                Node::Spread(_) => match vals[0] {
                    ValueView::Array(items) => Some(items + rest),
                    _ => None,
                },
                _ => Some(seq![vals[0]] + rest),
            },
        }
    }
}

/// The number of nodes of an expression, for the termination of its
/// evaluation.
pub open spec fn node_size(n: Node) -> nat
    decreases n,
{
    match n {
        Node::Binary(l, _, r) => 1 + node_size(*l) + node_size(*r),
        Node::Unary(_, x) => 1 + node_size(*x),
        Node::Member(o, _) => 1 + node_size(*o),
        Node::Index(o, i) => 1 + node_size(*o) + node_size(*i),
        Node::Spread(x) => 1 + node_size(*x),
        Node::ArrayLiteral(es) => 1 + nodes_size(es),
        Node::FunctionCall(_, args, named) => 1 + nodes_size(args) + named_size(named),
        _ => 1,
    }
}

/// The number of nodes of a list of expressions.
pub open spec fn nodes_size(es: Seq<Node>) -> nat
    decreases es,
{
    if es.len() == 0 {
        0
    } else {
        node_size(es[0]) + nodes_size(es.subrange(1, es.len() as int))
    }
}

/// The number of nodes of the values of a list of named expressions.
pub open spec fn named_size(ps: Seq<(Seq<char>, Node)>) -> nat
    decreases ps,
{
    if ps.len() == 0 {
        0
    } else {
        node_size(ps[0].1) + named_size(ps.subrange(1, ps.len() as int))
    }
}

/// `e` is evaluated from variables `s` along `t`, with `fns` the user
/// functions, `room` the number of further call frames that may open, and
/// `in_loop` whether a loop runs: a literal is its value; a variable the
/// value it resolves to (an error if none); an operator's operands are
/// evaluated left first, each from the variables the one before left, and
/// the operator applies to their values (see `binary_gives`,
/// `unary_gives`); a member or an index of a value is as `member_value` and
/// `index_value` give it; a list literal is the list of its elements'
/// values. A call evaluates its positional arguments in order (the list
/// after `*` of a spread argument gives its elements, anything else after
/// `*` is an error), then its named arguments; a user function is then
/// called (see `call_by`), and named arguments to one are an error; any
/// other name is answered by the built-in functions, of which nothing is
/// known. An error in a part is the error of the whole. Objects, and
/// anything else, have no value.
pub open spec fn ceval_by(
    s: Vars,
    fns: Map<Seq<char>, UserFunction>,
    room: nat,
    in_loop: bool,
    e: Node,
    t: ETrace,
) -> bool
    decreases t, 0int,
{
    match e {
        Node::Literal(x) => t.val == Some(x) && t.end == s,
        Node::Variable(n) => t.val == var_lookup(s, n) && t.end == s,
        Node::Binary(l, op, r) => {
            &&& t.kids.len() > 0
            &&& ceval_by(s, fns, room, in_loop, *l, t.kids[0])
            &&& match t.kids[0].val {
                None => t.val is None && t.end == t.kids[0].end,
                Some(a) => {
                    &&& t.kids.len() > 1
                    &&& ceval_by(t.kids[0].end, fns, room, in_loop, *r, t.kids[1])
                    &&& t.end == t.kids[1].end
                    &&& match t.kids[1].val {
                        None => t.val is None,
                        Some(b) => match t.val {
                            Some(v) => binary_gives(a, op, b, v),
                            None => binary_may_fail(a, op, b),
                        },
                    }
                },
            }
        },
        Node::Unary(op, x) => {
            &&& t.kids.len() > 0
            &&& ceval_by(s, fns, room, in_loop, *x, t.kids[0])
            &&& t.end == t.kids[0].end
            &&& match t.kids[0].val {
                None => t.val is None,
                Some(a) => match t.val {
                    Some(v) => unary_gives(op, a, v),
                    None => op == UnaryOp::Minus && !(a is Number),
                },
            }
        },
        Node::Member(o, m) => {
            &&& t.kids.len() > 0
            &&& ceval_by(s, fns, room, in_loop, *o, t.kids[0])
            &&& t.end == t.kids[0].end
            &&& match t.kids[0].val {
                None => t.val is None,
                Some(a) => t.val == member_value(a, m),
            }
        },
        Node::Index(o, i) => {
            &&& t.kids.len() > 0
            &&& ceval_by(s, fns, room, in_loop, *o, t.kids[0])
            &&& match t.kids[0].val {
                None => t.val is None && t.end == t.kids[0].end,
                Some(a) => {
                    &&& t.kids.len() > 1
                    &&& ceval_by(t.kids[0].end, fns, room, in_loop, *i, t.kids[1])
                    &&& t.end == t.kids[1].end
                    &&& match t.kids[1].val {
                        None => t.val is None,
                        Some(b) => t.val == index_value(a, b),
                    }
                },
            }
        },
        Node::ArrayLiteral(es) => {
            &&& list_shape(es.len(), t.kids)
            &&& ceval_list_by(s, fns, room, in_loop, es, t.kids)
            &&& t.end == list_end(s, t.kids)
            &&& t.val == if list_ok(es.len(), t.kids) {
                Some(ValueView::Array(list_values(t.kids)))
            } else {
                None
            }
        },
        Node::FunctionCall(name, args, named) => {
            &&& t.kids.len() == 2
            &&& list_shape(args.len(), t.kids[0].kids)
            &&& ceval_list_by(s, fns, room, in_loop, arg_exprs(args), t.kids[0].kids)
            &&& if !list_ok(args.len(), t.kids[0].kids) {
                t.val is None && t.end == list_end(s, t.kids[0].kids)
            } else {
                let s1 = list_end(s, t.kids[0].kids);
                let s2 = list_end(s1, t.kids[1].kids);
                &&& list_shape(named.len(), t.kids[1].kids)
                &&& ceval_list_by(s1, fns, room, in_loop, named_exprs(named), t.kids[1].kids)
                &&& if !list_ok(named.len(), t.kids[1].kids) {
                    t.val is None && t.end == s2
                } else {
                    match positional(args, list_values(t.kids[0].kids)) {
                        None => t.val is None && t.end == s2,
                        Some(pv) => if fns.contains_key(name) {
                            if named.len() > 0 {
                                t.val is None && t.end == s2
                            } else {
                                t.call.len() > 0 && call_by(s2, fns, room, in_loop, name, pv, t.call[0], t.val, t.end)
                            }
                        } else {
                            t.end == s2
                        },
                    }
                }
            }
        },
        _ => t.val is None && t.end == s,
    }
}

/// A call of the user function `name` with `args`, from variables `s`,
/// runs along `ct`, gives `r` (`None` for an error) and ends with
/// variables `sf`: an unknown function, a wrong number of arguments, a
/// full call stack (`room` is zero) or a body line of `0x7fff_ffff`
/// characters or more is an error that changes nothing; otherwise a new
/// function scope binds the parameters to the arguments, the body runs as
/// inside a function (see `body_by`), with one frame less of room, the
/// scope is closed, and the call gives the value returned, `null` when the
/// body ends without `return`, or an error when the body fails.
pub open spec fn call_by(
    s: Vars,
    fns: Map<Seq<char>, UserFunction>,
    room: nat,
    in_loop: bool,
    name: Seq<char>,
    args: Seq<ValueView>,
    ct: CallTrace,
    r: Option<ValueView>,
    sf: Vars,
) -> bool
    decreases ct, 0int,
{
    if !fns.contains_key(name) || fns[name].parameters@.len() != args.len() || room == 0 || !lines_short(
        texts(fns[name].body@),
    ) {
        r is None && sf == s
    } else {
        let f = fns[name];
        &&& body_by(enter_call(s, texts(f.parameters@), args), fns, (room - 1) as nat, true, in_loop, texts(f.body@),
            ct.lines, 0, ct.out, ct.last)
        &&& sf == exit_call(ct.last)
        &&& r == match ct.out {
            FlowView::Fail => None::<ValueView>,
            FlowView::Return(v) => Some(v),
            _ => Some(ValueView::Null),
        }
    }
}

/// The expression that the expression parser reads from the start of
/// `text` (see `e_level`), if it reads one.
pub open spec fn tparse(text: Seq<char>) -> Option<Node> {
    match e_level(text, opening(text), 6) {
        Some((n, _)) => Some(n),
        None => None,
    }
}

/// The expression written `text` is evaluated from `s` along `et` (see
/// `tparse` and `ceval_by`); a text that does not parse fails and changes
/// nothing.
pub open spec fn text_evals(
    s: Vars,
    fns: Map<Seq<char>, UserFunction>,
    room: nat,
    in_loop: bool,
    text: Seq<char>,
    et: ETrace,
) -> bool
    decreases et, 1int,
{
    match tparse(text) {
        None => et.val is None && et.end == s,
        Some(e) => ceval_by(s, fns, room, in_loop, e, et),
    }
}

/// The expressions written `txts` are evaluated in order from `s` along
/// `ts` (see `text_evals`), each from the variables the one before left,
/// until one fails.
pub open spec fn texts_by(
    s: Vars,
    fns: Map<Seq<char>, UserFunction>,
    room: nat,
    in_loop: bool,
    txts: Seq<Seq<char>>,
    ts: Seq<ETrace>,
) -> bool
    decreases ts, 0int,
{
    if ts.len() == 0 || txts.len() == 0 {
        true
    } else {
        &&& text_evals(s, fns, room, in_loop, txts[0], ts[0])
        &&& (ts[0].val is Some ==> texts_by(ts[0].end, fns, room, in_loop, txts.subrange(1, txts.len() as int),
            ts.subrange(1, ts.len() as int)))
    }
}

/// The line `code` opens a block: a function definition, a `for` loop, an
/// `if` or a `try` (see `line_action`).
pub open spec fn opens_block(code: Seq<char>) -> bool {
    match line_action(seq![code], 0) {
        LineAction::FunctionDefinition | LineAction::ForLoop | LineAction::IfStatement
        | LineAction::TryStatement => true,
        _ => false,
    }
}

/// The line `code` runs from variables `s` along `et` and ends as `out`
/// with variables `s2` (see `block_line`, with `return` run here): a
/// skipped line changes nothing; `break` ends the run; `throw` evaluates
/// its expression and fails; `return` ends the run with the value of its
/// expression (`null` without one); a declaration or an assignment
/// evaluates its expression and sets the variable to its value (an
/// assignment in the innermost function scope, or the global scope outside
/// functions); `print` evaluates its arguments in order and hands their
/// values to the built-in `print`, which may fail; an expression is
/// evaluated. Expressions are evaluated as `text_evals` says, calls of user
/// functions included; a line whose expression fails fails, with what the
/// evaluation changed before it failed.
pub open spec fn line_by(
    s: Vars,
    fns: Map<Seq<char>, UserFunction>,
    room: nat,
    code: Seq<char>,
    in_function: bool,
    in_loop: bool,
    et: ETrace,
    out: FlowView,
    s2: Vars,
) -> bool
    decreases et, 3int,
{
    if opens_block(code) {
        out == FlowView::Fail && s2 == s
    } else {
        line_by_statement(s, fns, room, code, in_function, in_loop, et, out, s2)
    }
}

/// The statement of a line that opens no block runs (see `line_by`).
pub open spec fn line_by_statement(
    s: Vars,
    fns: Map<Seq<char>, UserFunction>,
    room: nat,
    code: Seq<char>,
    in_function: bool,
    in_loop: bool,
    et: ETrace,
    out: FlowView,
    s2: Vars,
) -> bool
    decreases et, 2int,
{
    match block_line(code, in_function, in_loop, false) {
        Err(_) => out == FlowView::Fail && s2 == s,
        Ok(st) => match st {
            StatementView::Skip => out == FlowView::Normal && s2 == s,
            StatementView::Break => out == FlowView::Break && s2 == s,
            StatementView::Throw(t) => out == FlowView::Fail && text_evals(s, fns, room, in_loop, t, et) && s2
                == et.end,
            StatementView::Return(t) => if t.len() == 0 {
                out == FlowView::Return(ValueView::Null) && s2 == s
            } else {
                &&& text_evals(s, fns, room, in_loop, t, et)
                &&& s2 == et.end
                &&& out == match et.val {
                    Some(v) => FlowView::Return(v),
                    None => FlowView::Fail,
                }
            },
            StatementView::Declare(g, n, t) => text_evals(s, fns, room, in_loop, t, et) && match et.val {
                Some(v) => out == FlowView::Normal && s2 == set_var(et.end, n, v, g),
                None => out == FlowView::Fail && s2 == et.end,
            },
            StatementView::Assign(n, t) => text_evals(s, fns, room, in_loop, t, et) && match et.val {
                Some(v) => out == FlowView::Normal && s2 == set_var(et.end, n, v, false),
                None => out == FlowView::Fail && s2 == et.end,
            },
            StatementView::Print(ts) => {
                &&& list_shape(ts.len(), et.kids)
                &&& texts_by(s, fns, room, in_loop, ts, et.kids)
                &&& s2 == list_end(s, et.kids)
                &&& if list_ok(ts.len(), et.kids) {
                    out == FlowView::Normal || out == FlowView::Fail
                } else {
                    out == FlowView::Fail
                }
            },
            StatementView::Expression(t) => {
                &&& text_evals(s, fns, room, in_loop, t, et)
                &&& s2 == et.end
                &&& out == if et.val is Some { FlowView::Normal } else { FlowView::Fail }
            },
        },
    }
}

/// The lines `lines` run from line `k` on, from variables `s` along `t`,
/// and end as `out` with variables `sf`: the lines run in order (see
/// `line_by`) while each ends normally; the first that ends otherwise ends
/// the run as it ended.
pub open spec fn body_by(
    s: Vars,
    fns: Map<Seq<char>, UserFunction>,
    room: nat,
    in_function: bool,
    in_loop: bool,
    lines: Seq<Seq<char>>,
    t: BodyTrace,
    k: int,
    out: FlowView,
    sf: Vars,
) -> bool
    decreases t, lines.len() - k,
{
    if !(0 <= k < lines.len()) {
        out == FlowView::Normal && sf == s
    } else {
        &&& t.states.len() > k && t.outs.len() > k && t.evals.len() > k
        &&& line_by(s, fns, room, lines[k], in_function, in_loop, t.evals[k], t.outs[k], t.states[k])
        &&& if t.outs[k] == FlowView::Normal {
            body_by(t.states[k], fns, room, in_function, in_loop, lines, t, k + 1, out, sf)
        } else {
            out == t.outs[k] && sf == t.states[k]
        }
    }
}

/// The line `code` may end as `out` with variables `s2` (see `line_by`).
pub open spec fn line_runs(
    s: Vars,
    fns: Map<Seq<char>, UserFunction>,
    room: nat,
    code: Seq<char>,
    in_function: bool,
    in_loop: bool,
    out: FlowView,
    s2: Vars,
) -> bool {
    exists|et: ETrace| #[trigger] line_by(s, fns, room, code, in_function, in_loop, et, out, s2)
}

/// Running `lines` from variables `s` may end as `out` with variables `sf`
/// (see `body_by`).
pub open spec fn body_runs(
    s: Vars,
    fns: Map<Seq<char>, UserFunction>,
    room: nat,
    in_function: bool,
    in_loop: bool,
    lines: Seq<Seq<char>>,
    out: FlowView,
    sf: Vars,
) -> bool {
    exists|t: BodyTrace| #[trigger] body_by(s, fns, room, in_function, in_loop, lines, t, 0, out, sf)
}

/// A call of the user function `name` with `args` may give `r` and end
/// with variables `sf` (see `call_by`).
pub open spec fn call_gives(
    s: Vars,
    fns: Map<Seq<char>, UserFunction>,
    room: nat,
    in_loop: bool,
    name: Seq<char>,
    args: Seq<ValueView>,
    r: Option<ValueView>,
    sf: Vars,
) -> bool {
    exists|ct: CallTrace| #[trigger] call_by(s, fns, room, in_loop, name, args, ct, r, sf)
}

/// Evaluating `e` may give `r` (`None` for an error) and end with
/// variables `sf` (see `ceval_by`).
pub open spec fn expression_gives(
    s: Vars,
    fns: Map<Seq<char>, UserFunction>,
    room: nat,
    in_loop: bool,
    e: Node,
    r: Option<ValueView>,
    sf: Vars,
) -> bool {
    exists|t: ETrace| #[trigger] ceval_by(s, fns, room, in_loop, e, t) && t.val == r && t.end == sf
}

/// The number of further call frames that may open with `frames` open
/// under a limit of `limit`.
pub open spec fn room_of(frames: nat, limit: nat) -> nat {
    if frames < limit { (limit - frames) as nat } else { 0 }
}

/// A body trace that agrees with `t` from line `k` on runs the same.
pub proof fn lemma_body_by_from(
    s: Vars,
    fns: Map<Seq<char>, UserFunction>,
    room: nat,
    in_function: bool,
    in_loop: bool,
    lines: Seq<Seq<char>>,
    t: BodyTrace,
    t2: BodyTrace,
    k: int,
    out: FlowView,
    sf: Vars,
)
    requires
        body_by(s, fns, room, in_function, in_loop, lines, t, k, out, sf),
        0 <= k,
        t2.states.len() == t.states.len() && t2.outs.len() == t.outs.len() && t2.evals.len() == t.evals.len(),
        forall|j: int| k <= j < t.states.len() ==> t2.states[j] == t.states[j],
        forall|j: int| k <= j < t.outs.len() ==> t2.outs[j] == t.outs[j],
        forall|j: int| k <= j < t.evals.len() ==> t2.evals[j] == t.evals[j],
    ensures
        body_by(s, fns, room, in_function, in_loop, lines, t2, k, out, sf),
    decreases lines.len() - k,
{
    if 0 <= k < lines.len() {
        if t.outs[k] == FlowView::Normal {
            lemma_body_by_from(t.states[k], fns, room, in_function, in_loop, lines, t, t2, k + 1, out, sf);
        }
    }
}

/// One pass of a loop's body: how it ran, how it ended, and its last state.
pub struct PassTrace {
    pub body: BodyTrace,
    pub out: FlowView,
    pub last: Vars,
}

/// A `for` loop over `items` from state `s` ends as `out` in state `sf`,
/// along `ps`: for each item in order, a new loop scope binds `var` to it
/// and the body runs (see `body_by`); after a pass that ends normally the
/// scope is closed and the loop goes on; `break` closes the scope and ends
/// the loop normally; `return` closes it and ends the loop with the value;
/// a failure ends the loop with the scope still open.
pub open spec fn loop_by(
    s: Vars,
    fns: Map<Seq<char>, UserFunction>,
    room: nat,
    in_function: bool,
    var: Seq<char>,
    items: Seq<ValueView>,
    body: Seq<Seq<char>>,
    ps: Seq<PassTrace>,
    out: FlowView,
    sf: Vars,
) -> bool
    decreases items.len(),
{
    if items.len() == 0 {
        out == FlowView::Normal && sf == s
    } else {
        &&& ps.len() > 0
        &&& body_by(set_loop_var(enter_loop(s), var, items[0]), fns, room, in_function, true, body, ps[0].body, 0, ps[0].out,
            ps[0].last)
        &&& match ps[0].out {
            FlowView::Normal => loop_by(exit_loop(ps[0].last), fns, room, in_function, var, items.drop_first(), body, ps.drop_first(), out, sf),
            FlowView::Break => out == FlowView::Normal && sf == exit_loop(ps[0].last),
            FlowView::Return(v) => out == FlowView::Return(v) && sf == exit_loop(ps[0].last),
            FlowView::Fail => out == FlowView::Fail && sf == ps[0].last,
        }
    }
}

/// A `for` loop may end as `out` in state `sf` (see `loop_by`).
pub open spec fn loop_runs(
    s: Vars,
    fns: Map<Seq<char>, UserFunction>,
    room: nat,
    in_function: bool,
    var: Seq<char>,
    items: Seq<ValueView>,
    body: Seq<Seq<char>>,
    out: FlowView,
    sf: Vars,
) -> bool {
    exists|ps: Seq<PassTrace>| #[trigger] loop_by(s, fns, room, in_function, var, items, body, ps, out, sf)
}

/// `s2` has the loop scopes of `s`, as many function scopes, and the same
/// function scopes but the innermost.
pub open spec fn keeps_outer_scopes(s: Vars, s2: Vars) -> bool {
    &&& s2.loops == s.loops
    &&& s2.calls.len() == s.calls.len()
    &&& s2.calls.drop_last() == s.calls.drop_last()
}

/// `s2` has the function and loop scopes of `s`.
pub open spec fn keeps_scopes(s: Vars, s2: Vars) -> bool {
    s2.calls == s.calls && s2.loops == s.loops
}

/// Setting a variable keeps the outer scopes.
proof fn lemma_set_var_keeps_outer(s: Vars, n: Seq<char>, v: ValueView, g: bool)
    ensures
        keeps_outer_scopes(s, set_var(s, n, v, g)),
{
    let s2 = set_var(s, n, v, g);
    if !(g || s.calls.len() == 0) {
        assert(s2.calls.drop_last() =~= s.calls.drop_last());
    }
}

/// Evaluating an expression keeps the function and loop scopes.
proof fn lemma_ceval_scopes(
    s: Vars,
    fns: Map<Seq<char>, UserFunction>,
    room: nat,
    in_loop: bool,
    e: Node,
    t: ETrace,
)
    requires
        ceval_by(s, fns, room, in_loop, e, t),
    ensures
        keeps_scopes(s, t.end),
    decreases t, 0int,
{
    match e {
        Node::Binary(l, op, r) => {
            lemma_ceval_scopes(s, fns, room, in_loop, *l, t.kids[0]);
            if t.kids[0].val is Some {
                lemma_ceval_scopes(t.kids[0].end, fns, room, in_loop, *r, t.kids[1]);
            }
        },
        Node::Index(o, i) => {
            lemma_ceval_scopes(s, fns, room, in_loop, *o, t.kids[0]);
            if t.kids[0].val is Some {
                lemma_ceval_scopes(t.kids[0].end, fns, room, in_loop, *i, t.kids[1]);
            }
        },
        Node::Unary(op, x) => {
            lemma_ceval_scopes(s, fns, room, in_loop, *x, t.kids[0]);
        },
        Node::Member(o, m) => {
            lemma_ceval_scopes(s, fns, room, in_loop, *o, t.kids[0]);
        },
        Node::ArrayLiteral(es) => {
            lemma_list_scopes(s, fns, room, in_loop, es, t.kids);
        },
        Node::FunctionCall(name, args, named) => {
            let p = t.kids[0];
            lemma_list_scopes(s, fns, room, in_loop, arg_exprs(args), p.kids);
            if list_ok(args.len(), p.kids) {
                let s1 = list_end(s, p.kids);
                let q = t.kids[1];
                lemma_list_scopes(s1, fns, room, in_loop, named_exprs(named), q.kids);
                let s2 = list_end(s1, q.kids);
                if list_ok(named.len(), q.kids) && fns.contains_key(name) && named.len() == 0 {
                    if let Some(pv) = positional(args, list_values(p.kids)) {
                        lemma_call_scopes(s2, fns, room, in_loop, name, pv, t.call[0], t.val, t.end);
                    }
                }
            }
        },
        _ => {},
    }
}

/// Evaluating a list of expressions keeps the function and loop scopes.
proof fn lemma_list_scopes(
    s: Vars,
    fns: Map<Seq<char>, UserFunction>,
    room: nat,
    in_loop: bool,
    es: Seq<Node>,
    ts: Seq<ETrace>,
)
    requires
        ceval_list_by(s, fns, room, in_loop, es, ts),
        list_shape(es.len(), ts),
    ensures
        keeps_scopes(s, list_end(s, ts)),
    decreases ts, 0int,
{
    if ts.len() > 0 {
        lemma_ceval_scopes(s, fns, room, in_loop, es[0], ts[0]);
        if ts.len() > 1 {
            let es2 = es.subrange(1, es.len() as int);
            let ts2 = ts.subrange(1, ts.len() as int);
            assert(ts[0].val is Some);
            assert forall|j: int| 0 <= j < ts2.len() - 1 implies (#[trigger] ts2[j]).val is Some by {
                assert(ts2[j] == ts[j + 1]);
            }
            assert(ts2.last() == ts.last());
            lemma_list_scopes(ts[0].end, fns, room, in_loop, es2, ts2);
        }
    }
}

/// Evaluating the expressions written in a list of texts keeps the function
/// and loop scopes.
proof fn lemma_texts_scopes(
    s: Vars,
    fns: Map<Seq<char>, UserFunction>,
    room: nat,
    in_loop: bool,
    txts: Seq<Seq<char>>,
    ts: Seq<ETrace>,
)
    requires
        texts_by(s, fns, room, in_loop, txts, ts),
        list_shape(txts.len(), ts),
    ensures
        keeps_scopes(s, list_end(s, ts)),
    decreases ts, 0int,
{
    if ts.len() > 0 {
        lemma_text_scopes(s, fns, room, in_loop, txts[0], ts[0]);
        if ts.len() > 1 {
            let x2 = txts.subrange(1, txts.len() as int);
            let ts2 = ts.subrange(1, ts.len() as int);
            assert(ts[0].val is Some);
            assert forall|j: int| 0 <= j < ts2.len() - 1 implies (#[trigger] ts2[j]).val is Some by {
                assert(ts2[j] == ts[j + 1]);
            }
            assert(ts2.last() == ts.last());
            lemma_texts_scopes(ts[0].end, fns, room, in_loop, x2, ts2);
        }
    }
}

/// Evaluating the expression written in a text keeps the function and loop
/// scopes.
proof fn lemma_text_scopes(
    s: Vars,
    fns: Map<Seq<char>, UserFunction>,
    room: nat,
    in_loop: bool,
    text: Seq<char>,
    et: ETrace,
)
    requires
        text_evals(s, fns, room, in_loop, text, et),
    ensures
        keeps_scopes(s, et.end),
    decreases et, 1int,
{
    match tparse(text) {
        Some(e) => lemma_ceval_scopes(s, fns, room, in_loop, e, et),
        None => {},
    }
}

/// A call of a user function keeps the caller's function and loop scopes.
proof fn lemma_call_scopes(
    s: Vars,
    fns: Map<Seq<char>, UserFunction>,
    room: nat,
    in_loop: bool,
    name: Seq<char>,
    args: Seq<ValueView>,
    ct: CallTrace,
    r: Option<ValueView>,
    sf: Vars,
)
    requires
        call_by(s, fns, room, in_loop, name, args, ct, r, sf),
    ensures
        keeps_scopes(s, sf),
    decreases ct, 0int,
{
    if fns.contains_key(name) && fns[name].parameters@.len() == args.len() && room != 0 && lines_short(
        texts(fns[name].body@),
    ) {
        let f = fns[name];
        let s1 = enter_call(s, texts(f.parameters@), args);
        lemma_body_scopes(s1, fns, (room - 1) as nat, true, in_loop, texts(f.body@), ct.lines, 0, ct.out, ct.last);
        assert(s1.calls.drop_last() =~= s.calls);
        assert(sf.calls =~= ct.last.calls.drop_last());
    }
}

/// A line keeps the outer scopes.
proof fn lemma_line_scopes(
    s: Vars,
    fns: Map<Seq<char>, UserFunction>,
    room: nat,
    code: Seq<char>,
    in_function: bool,
    in_loop: bool,
    et: ETrace,
    out: FlowView,
    s2: Vars,
)
    requires
        line_by(s, fns, room, code, in_function, in_loop, et, out, s2),
    ensures
        keeps_outer_scopes(s, s2),
    decreases et, 2int,
{
    if !opens_block(code) {
        assert(line_by_statement(s, fns, room, code, in_function, in_loop, et, out, s2));
        match block_line(code, in_function, in_loop, false) {
            Ok(StatementView::Throw(t)) => lemma_text_scopes(s, fns, room, in_loop, t, et),
            Ok(StatementView::Return(t)) => if t.len() > 0 {
                lemma_text_scopes(s, fns, room, in_loop, t, et);
            },
            Ok(StatementView::Expression(t)) => lemma_text_scopes(s, fns, room, in_loop, t, et),
            Ok(StatementView::Declare(g, n, t)) => {
                lemma_text_scopes(s, fns, room, in_loop, t, et);
                if let Some(v) = et.val {
                    lemma_set_var_keeps_outer(et.end, n, v, g);
                }
            },
            Ok(StatementView::Assign(n, t)) => {
                lemma_text_scopes(s, fns, room, in_loop, t, et);
                if let Some(v) = et.val {
                    lemma_set_var_keeps_outer(et.end, n, v, false);
                }
            },
            Ok(StatementView::Print(ts)) => lemma_texts_scopes(s, fns, room, in_loop, ts, et.kids),
            _ => {},
        }
    }
}

/// A run of lines keeps the outer scopes.
proof fn lemma_body_scopes(
    s: Vars,
    fns: Map<Seq<char>, UserFunction>,
    room: nat,
    in_function: bool,
    in_loop: bool,
    lines: Seq<Seq<char>>,
    t: BodyTrace,
    k: int,
    out: FlowView,
    sf: Vars,
)
    requires
        body_by(s, fns, room, in_function, in_loop, lines, t, k, out, sf),
    ensures
        keeps_outer_scopes(s, sf),
    decreases t, lines.len() - k,
{
    if 0 <= k < lines.len() {
        lemma_line_scopes(s, fns, room, lines[k], in_function, in_loop, t.evals[k], t.outs[k], t.states[k]);
        if t.outs[k] == FlowView::Normal {
            lemma_body_scopes(t.states[k], fns, room, in_function, in_loop, lines, t, k + 1, out, sf);
        }
    }
}

/// A call of a user function has its own scope: whatever it does, calls of
/// user functions from its expressions included, the caller's function
/// scopes and loop scopes are afterwards exactly as they were; only global
/// variables may have changed.
pub proof fn law_call_keeps_caller_scopes(
    s: Vars,
    fns: Map<Seq<char>, UserFunction>,
    room: nat,
    in_loop: bool,
    name: Seq<char>,
    args: Seq<ValueView>,
    r: Option<ValueView>,
    sf: Vars,
)
    requires
        call_gives(s, fns, room, in_loop, name, args, r, sf),
    ensures
        sf.calls == s.calls,
        sf.loops == s.loops,
{
    let ct = choose|ct: CallTrace| #[trigger] call_by(s, fns, room, in_loop, name, args, ct, r, sf);
    lemma_call_scopes(s, fns, room, in_loop, name, args, ct, r, sf);
}

/// A copy of a list of lines.
fn copy_lines(v: &Vec<String>) -> (r: Vec<String>)
    ensures
        texts(r@) == texts(v@),
{
    let mut r: Vec<String> = Vec::new();
    let mut i: usize = 0;
    while i < v.len()
        invariant
            i <= v@.len(),
            texts(r@) == texts(v@).take(i as int),
        decreases v.len() - i,
    {
        let ghost before = r@;
        r.push(v[i].clone());
        proof {
            assert(texts(r@) =~= texts(before).push(v@[i as int]@));
            assert(texts(v@).take(i + 1) =~= texts(v@).take(i as int).push(v@[i as int]@));
        }
        i = i + 1;
    }
    assert(texts(v@).take(v@.len() as int) =~= texts(v@));
    r
}

/// A copy of a list of values.
fn copy_values(v: &Vec<Value>) -> (r: Vec<Value>)
    ensures
        value_views(r@) == value_views(v@),
{
    let mut r: Vec<Value> = Vec::new();
    let mut i: usize = 0;
    while i < v.len()
        invariant
            i <= v@.len(),
            value_views(r@) == value_views(v@).take(i as int),
        decreases v.len() - i,
    {
        let ghost before = r@;
        r.push(v[i].copy());
        proof {
            assert(value_views(r@) =~= value_views(before).push(v@[i as int]@));
            assert(value_views(v@).take(i + 1) =~= value_views(v@).take(i as int).push(v@[i as int]@));
        }
        i = i + 1;
    }
    assert(value_views(v@).take(v@.len() as int) =~= value_views(v@));
    r
}

impl Interpreter {
    /// The number of further call frames that may open.
    pub open spec fn call_room(&self) -> nat {
        room_of(self.call_stack.frames().len(), self.call_stack.limit())
    }

    /// Evaluates `e`, calling user functions (see `ceval_by`).
    #[verifier::spinoff_prover]
    #[verifier::rlimit(40)]
    fn eval_calls<N: NumberArithmetic + NumberText, B: Builtins>(
        &mut self,
        e: &Tree,
        in_loop: bool,
        numbers: &N,
        builtins: &B,
    ) -> (res: (Result<Value, DataCodeError>, Ghost<ETrace>))
        requires
            old(self).wf(),
        ensures
            final(self).wf(),
            only_variables_changed(*old(self), *final(self)),
            ceval_by(old(self).variable_manager.vars(), old(self).function_manager.view_map(), old(self).call_room(),
                in_loop, e@, res.1@),
            res.1@.val == result_value(res.0),
            res.1@.end == final(self).variable_manager.vars(),
        decreases old(self).call_stack.limit() - old(self).call_stack.frames().len(), 1int, node_size(e@) as int, 1int,
    {
        let ghost s = self.variable_manager.vars();
        let ghost none: Seq<CallTrace> = Seq::empty();
        let ghost no_kids: Seq<ETrace> = Seq::empty();
        match e {
            Tree::Literal(v) => {
                let r = Ok(v.copy());
                let ghost t = ETrace { kids: no_kids, call: none, val: Some(v@), end: s };
                (r, Ghost(t))
            },
            Tree::Variable(name) => {
                let r = match self.variable_manager.get_variable(name.as_str()) {
                    Some(v) => Ok(v.copy()),
                    None => Err(DataCodeError::runtime_error(
                        framed_name("Variable '", name.as_str(), "' not found"),
                        self.current_line,
                    )),
                };
                let ghost t = ETrace { kids: no_kids, call: none, val: result_value(r), end: s };
                (r, Ghost(t))
            },
            Tree::Binary { left, operator, right } => {
                let (ra, Ghost(ta)) = self.eval_calls(left, in_loop, numbers, builtins);
                let a = match ra {
                    Ok(v) => v,
                    Err(err) => {
                        let ghost t = ETrace { kids: seq![ta], call: none, val: None, end: ta.end };
                        return (Err(err), Ghost(t));
                    },
                };
                let (rb, Ghost(tb)) = self.eval_calls(right, in_loop, numbers, builtins);
                let b = match rb {
                    Ok(v) => v,
                    Err(err) => {
                        let ghost t = ETrace { kids: seq![ta, tb], call: none, val: None, end: tb.end };
                        return (Err(err), Ghost(t));
                    },
                };
                let ev = ExpressionEvaluator::new(&self.variable_manager, &self.function_manager, self.current_line);
                let r = ev.evaluate_binary_op(&a, *operator, &b, numbers);
                let ghost t = ETrace { kids: seq![ta, tb], call: none, val: result_value(r), end: tb.end };
                (r, Ghost(t))
            },
            Tree::Unary { operator, operand } => {
                let (ra, Ghost(ta)) = self.eval_calls(operand, in_loop, numbers, builtins);
                let a = match ra {
                    Ok(v) => v,
                    Err(err) => {
                        let ghost t = ETrace { kids: seq![ta], call: none, val: None, end: ta.end };
                        return (Err(err), Ghost(t));
                    },
                };
                let ev = ExpressionEvaluator::new(&self.variable_manager, &self.function_manager, self.current_line);
                let r = ev.evaluate_unary_op(*operator, &a, numbers);
                let ghost t = ETrace { kids: seq![ta], call: none, val: result_value(r), end: ta.end };
                (r, Ghost(t))
            },
            Tree::Member { object, member } => {
                let (ra, Ghost(ta)) = self.eval_calls(object, in_loop, numbers, builtins);
                let a = match ra {
                    Ok(v) => v,
                    Err(err) => {
                        let ghost t = ETrace { kids: seq![ta], call: none, val: None, end: ta.end };
                        return (Err(err), Ghost(t));
                    },
                };
                let r = match member_of(&a, member.as_str()) {
                    Some(v) => Ok(v),
                    None => Err(DataCodeError::runtime_error(
                        framed_name("No member '", member.as_str(), "' in this value"),
                        self.current_line,
                    )),
                };
                let ghost t = ETrace { kids: seq![ta], call: none, val: result_value(r), end: ta.end };
                (r, Ghost(t))
            },
            Tree::Index { object, index } => {
                let (ra, Ghost(ta)) = self.eval_calls(object, in_loop, numbers, builtins);
                let a = match ra {
                    Ok(v) => v,
                    Err(err) => {
                        let ghost t = ETrace { kids: seq![ta], call: none, val: None, end: ta.end };
                        return (Err(err), Ghost(t));
                    },
                };
                let (rb, Ghost(tb)) = self.eval_calls(index, in_loop, numbers, builtins);
                let b = match rb {
                    Ok(v) => v,
                    Err(err) => {
                        let ghost t = ETrace { kids: seq![ta, tb], call: none, val: None, end: tb.end };
                        return (Err(err), Ghost(t));
                    },
                };
                let r = match index_of(&a, &b) {
                    Some(v) => Ok(v),
                    None => Err(DataCodeError::runtime_error(owned("Index out of bounds or not valid"), self.current_line)),
                };
                let ghost t = ETrace { kids: seq![ta, tb], call: none, val: result_value(r), end: tb.end };
                (r, Ghost(t))
            },
            Tree::ArrayLiteral { elements } => {
                proof {
                    lemma_nodes(elements@);
                    assert(nodes(elements@).skip(0) =~= nodes(elements@));
                    lemma_value_list(Seq::<Value>::empty());
                }
                let (ra, Ghost(ts)) = self.eval_args_from(elements, 0, false, Vec::new(), in_loop, numbers, builtins);
                let r = match ra {
                    Ok(vs) => {
                        proof {
                            assert(value_list(Seq::<Value>::empty()) + list_values(ts) =~= list_values(ts));
                        }
                        Ok(Value::Array(vs))
                    },
                    Err(err) => Err(err),
                };
                let ghost t = ETrace { kids: ts, call: none, val: result_value(r), end: self.variable_manager.vars() };
                (r, Ghost(t))
            },
            Tree::FunctionCall { name, args, named_args } => self.eval_call(name, args, named_args, in_loop, numbers,
                builtins),
            _ => {
                let r = Err(DataCodeError::runtime_error(owned("Unsupported expression type"), self.current_line));
                let ghost t = ETrace { kids: no_kids, call: none, val: None, end: s };
                (r, Ghost(t))
            },
        }
    }

    /// Evaluates a call of `name` with positional arguments `args` and named
    /// arguments `named_args`, calling user functions (see `ceval_by`).
    #[verifier::spinoff_prover]
    #[verifier::rlimit(40)]
    fn eval_call<N: NumberArithmetic + NumberText, B: Builtins>(
        &mut self,
        name: &String,
        args: &Vec<Tree>,
        named_args: &Vec<(String, Tree)>,
        in_loop: bool,
        numbers: &N,
        builtins: &B,
    ) -> (res: (Result<Value, DataCodeError>, Ghost<ETrace>))
        requires
            old(self).wf(),
        ensures
            final(self).wf(),
            only_variables_changed(*old(self), *final(self)),
            ceval_by(old(self).variable_manager.vars(), old(self).function_manager.view_map(), old(self).call_room(),
                in_loop, Node::FunctionCall(name@, nodes(args@), named_nodes(named_args@)), res.1@),
            res.1@.val == result_value(res.0),
            res.1@.end == final(self).variable_manager.vars(),
        decreases old(self).call_stack.limit() - old(self).call_stack.frames().len(), 1int,
            node_size(Node::FunctionCall(name@, nodes(args@), named_nodes(named_args@))) as int, 0int,
    {
        let ghost s = self.variable_manager.vars();
        let ghost none: Seq<CallTrace> = Seq::empty();
                proof {
                    lemma_nodes(args@);
                    lemma_named_nodes(named_args@);
                    assert(nodes(args@).skip(0) =~= nodes(args@));
                    assert(named_nodes(named_args@).skip(0) =~= named_nodes(named_args@));
                    lemma_value_list(Seq::<Value>::empty());
                }
                let (ra, Ghost(pts)) = self.eval_args_from(args, 0, true, Vec::new(), in_loop, numbers, builtins);
                let ghost p = ETrace { kids: pts, call: none, val: None, end: s };
                let values = match ra {
                    Ok(vs) => vs,
                    Err(err) => {
                        let ghost t = ETrace { kids: seq![p, p], call: none, val: None, end: self.variable_manager.vars() };
                        return (Err(err), Ghost(t));
                    },
                };
                proof {
                    assert(value_list(Seq::<Value>::empty()) + list_values(pts) =~= list_values(pts));
                }
                let (rn, Ghost(qts)) = self.eval_named_from(named_args, 0, Vec::new(), in_loop, numbers, builtins);
                let ghost q = ETrace { kids: qts, call: none, val: None, end: s };
                let named_values = match rn {
                    Ok(vs) => vs,
                    Err(err) => {
                        let ghost t = ETrace { kids: seq![p, q], call: none, val: None, end: self.variable_manager.vars() };
                        return (Err(err), Ghost(t));
                    },
                };
                proof {
                    lemma_value_list(values@);
                    assert(value_list(values@) == list_values(pts));
                    assert(list_values(pts).len() == pts.len());
                }
                let pv = match expand_from(args, &values, 0) {
                    Some(v) => v,
                    None => {
                        proof {
                            assert(value_list(values@).skip(0) =~= value_list(values@));
                            assert(positional(nodes(args@), list_values(pts)) is None);
                        }
                        let r = Err(DataCodeError::runtime_error(
                            owned("Spread operator can only be used with arrays"),
                            self.current_line,
                        ));
                        let ghost t = ETrace { kids: seq![p, q], call: none, val: None, end: self.variable_manager.vars() };
                        return (r, Ghost(t));
                    },
                };
                proof {
                    assert(value_list(values@).skip(0) =~= value_list(values@));
                }
                if self.function_manager.contains_function(name.as_str()) {
                    if named_values.len() > 0 {
                        let r = Err(DataCodeError::runtime_error(
                            owned("User functions do not support named arguments yet"),
                            self.current_line,
                        ));
                        let ghost t = ETrace { kids: seq![p, q], call: none, val: None, end: self.variable_manager.vars() };
                        return (r, Ghost(t));
                    }
                    let (r, Ghost(ct)) = self.call_function(name.as_str(), pv, in_loop, numbers, builtins);
                    let ghost t = ETrace {
                        kids: seq![p, q],
                        call: seq![ct],
                        val: result_value(r),
                        end: self.variable_manager.vars(),
                    };
                    (r, Ghost(t))
                } else {
                    let r = builtins.call_builtin(name.as_str(), pv, named_values, self.current_line);
                    let ghost t = ETrace { kids: seq![p, q], call: none, val: result_value(r), end: self.variable_manager.vars() };
                    (r, Ghost(t))
                }
    }

    /// The value of `expr` (see `expression_gives`), with user functions
    /// called as inside a loop when a loop is active.
    pub fn evaluate_expression<N: NumberArithmetic + NumberText, B: Builtins>(
        &mut self,
        expr: &Tree,
        numbers: &N,
        builtins: &B,
    ) -> (r: Result<Value, DataCodeError>)
        requires
            old(self).wf(),
        ensures
            final(self).wf(),
            only_variables_changed(*old(self), *final(self)),
            expression_gives(old(self).variable_manager.vars(), old(self).function_manager.view_map(),
                old(self).call_room(), old(self).active_loop_count > 0, expr@, result_value(r),
                final(self).variable_manager.vars()),
    {
        let in_loop = self.active_loop_count > 0;
        let (r, Ghost(t)) = self.eval_calls(expr, in_loop, numbers, builtins);
        r
    }

    /// Evaluates the arguments `es` from `k` on, in order, calling user
    /// functions (see `ceval_list_by` and `arg_expr`); their values follow
    /// those of `acc`.
    fn eval_args_from<N: NumberArithmetic + NumberText, B: Builtins>(
        &mut self,
        es: &Vec<Tree>,
        k: usize,
        spread: bool,
        acc: Vec<Value>,
        in_loop: bool,
        numbers: &N,
        builtins: &B,
    ) -> (res: (Result<Vec<Value>, DataCodeError>, Ghost<Seq<ETrace>>))
        requires
            old(self).wf(),
            k <= es@.len(),
        ensures
            final(self).wf(),
            only_variables_changed(*old(self), *final(self)),
            list_shape((es@.len() - k) as nat, res.1@),
            ceval_list_by(old(self).variable_manager.vars(), old(self).function_manager.view_map(),
                old(self).call_room(), in_loop, arg_list(spread, nodes(es@).skip(k as int)), res.1@),
            list_end(old(self).variable_manager.vars(), res.1@) == final(self).variable_manager.vars(),
            match res.0 {
                Ok(vs) => list_ok((es@.len() - k) as nat, res.1@) && value_list(vs@) == value_list(acc@) + list_values(
                    res.1@,
                ),
                Err(_) => !list_ok((es@.len() - k) as nat, res.1@),
            },
        decreases old(self).call_stack.limit() - old(self).call_stack.frames().len(), 1int,
            nodes_size(nodes(es@).skip(k as int)) as int, 2int,
    {
        proof { lemma_nodes(es@); }
        if k >= es.len() {
            proof { assert(value_list(acc@) + list_values(Seq::<ETrace>::empty()) =~= value_list(acc@)); }
            return (Ok(acc), Ghost(Seq::empty()));
        }
        let ghost s = self.variable_manager.vars();
        let ghost ev = nodes(es@).skip(k as int);
        proof {
            assert(ev[0] == es@[k as int]@);
            assert(ev.subrange(1, ev.len() as int) =~= nodes(es@).skip(k + 1));
            assert(arg_exprs(ev)[0] == arg_expr(ev[0]));
            assert(arg_exprs(ev).subrange(1, ev.len() as int) =~= arg_exprs(nodes(es@).skip(k + 1)));
        }
        let a = if spread {
            match &es[k] {
                Tree::Spread { expression } => &**expression,
                other => other,
            }
        } else {
            &es[k]
        };
        proof {
            assert(nodes_size(ev) == node_size(ev[0]) + nodes_size(ev.subrange(1, ev.len() as int)));
            assert(node_size(a@) <= node_size(ev[0]));
            assert(node_size(ev[0]) >= 1);
        }
        let (r, Ghost(t)) = self.eval_calls(a, in_loop, numbers, builtins);
        match r {
            Err(err) => {
                let ghost ts = seq![t];
                proof {
                    assert(list_end(s, ts) == t.end);
                }
                (Err(err), Ghost(ts))
            },
            Ok(v) => {
                let ghost vv = v@;
                let mut acc2 = acc;
                let ghost before = acc2@;
                proof { lemma_value_list_push(before, v); }
                acc2.push(v);
                let (r2, Ghost(ts2)) = self.eval_args_from(es, k + 1, spread, acc2, in_loop, numbers, builtins);
                let ghost ts = seq![t] + ts2;
                proof {
                    assert(ts.subrange(1, ts.len() as int) =~= ts2);
                    assert(ts[0] == t);
                    assert(list_values(ts) =~= seq![vv] + list_values(ts2));
                    if ts2.len() > 0 {
                        assert(ts.last() == ts2.last());
                    }
                    assert forall|j: int| 0 <= j < ts.len() - 1 implies (#[trigger] ts[j]).val is Some by {
                        if j > 0 {
                            assert(ts[j] == ts2[j - 1]);
                        }
                    }
                    if list_ok((es@.len() - k - 1) as nat, ts2) {
                        assert forall|j: int| 0 <= j < ts.len() implies (#[trigger] ts[j]).val is Some by {
                            if j > 0 {
                                assert(ts[j] == ts2[j - 1]);
                            }
                        }
                    }
                    if list_ok((es@.len() - k) as nat, ts) {
                        assert forall|j: int| 0 <= j < ts2.len() implies (#[trigger] ts2[j]).val is Some by {
                            assert(ts[j + 1] == ts2[j]);
                        }
                    }
                    match r2 {
                        Ok(ref vs) => {
                            assert(value_list(vs@) =~= value_list(acc@) + list_values(ts));
                        },
                        Err(_) => {},
                    }
                }
                (r2, Ghost(ts))
            },
        }
    }

    /// Evaluates the named arguments `ps` from `k` on, in order, calling
    /// user functions (see `ceval_list_by`); their names and values follow
    /// `acc`.
    fn eval_named_from<N: NumberArithmetic + NumberText, B: Builtins>(
        &mut self,
        ps: &Vec<(String, Tree)>,
        k: usize,
        acc: Vec<(String, Value)>,
        in_loop: bool,
        numbers: &N,
        builtins: &B,
    ) -> (res: (Result<Vec<(String, Value)>, DataCodeError>, Ghost<Seq<ETrace>>))
        requires
            old(self).wf(),
            k <= ps@.len(),
        ensures
            final(self).wf(),
            only_variables_changed(*old(self), *final(self)),
            list_shape((ps@.len() - k) as nat, res.1@),
            ceval_list_by(old(self).variable_manager.vars(), old(self).function_manager.view_map(),
                old(self).call_room(), in_loop, named_exprs(named_nodes(ps@).skip(k as int)), res.1@),
            list_end(old(self).variable_manager.vars(), res.1@) == final(self).variable_manager.vars(),
            match res.0 {
                Ok(vs) => list_ok((ps@.len() - k) as nat, res.1@) && vs@.len() == acc@.len() + ps@.len() - k,
                Err(_) => !list_ok((ps@.len() - k) as nat, res.1@),
            },
        decreases old(self).call_stack.limit() - old(self).call_stack.frames().len(), 1int,
            named_size(named_nodes(ps@).skip(k as int)) as int, 2int,
    {
        proof { lemma_named_nodes(ps@); }
        if k >= ps.len() {
            return (Ok(acc), Ghost(Seq::empty()));
        }
        let ghost s = self.variable_manager.vars();
        let ghost ev = named_nodes(ps@).skip(k as int);
        proof {
            assert(ev[0] == (ps@[k as int].0@, ps@[k as int].1@));
            assert(ev.subrange(1, ev.len() as int) =~= named_nodes(ps@).skip(k + 1));
            assert(named_exprs(ev)[0] == ev[0].1);
            assert(named_exprs(ev).subrange(1, ev.len() as int) =~= named_exprs(named_nodes(ps@).skip(k + 1)));
        }
        proof {
            assert(named_size(ev) == node_size(ev[0].1) + named_size(ev.subrange(1, ev.len() as int)));
            assert(node_size(ev[0].1) >= 1);
        }
        let (r, Ghost(t)) = self.eval_calls(&ps[k].1, in_loop, numbers, builtins);
        match r {
            Err(err) => {
                let ghost ts = seq![t];
                (Err(err), Ghost(ts))
            },
            Ok(v) => {
                let mut acc2 = acc;
                acc2.push((ps[k].0.clone(), v));
                let (r2, Ghost(ts2)) = self.eval_named_from(ps, k + 1, acc2, in_loop, numbers, builtins);
                let ghost ts = seq![t] + ts2;
                proof {
                    assert(ts.subrange(1, ts.len() as int) =~= ts2);
                    assert(ts[0] == t);
                    if ts2.len() > 0 {
                        assert(ts.last() == ts2.last());
                    }
                    assert forall|j: int| 0 <= j < ts.len() - 1 implies (#[trigger] ts[j]).val is Some by {
                        if j > 0 {
                            assert(ts[j] == ts2[j - 1]);
                        }
                    }
                    if list_ok((ps@.len() - k - 1) as nat, ts2) {
                        assert forall|j: int| 0 <= j < ts.len() implies (#[trigger] ts[j]).val is Some by {
                            if j > 0 {
                                assert(ts[j] == ts2[j - 1]);
                            }
                        }
                    }
                    if list_ok((ps@.len() - k) as nat, ts) {
                        assert forall|j: int| 0 <= j < ts2.len() implies (#[trigger] ts2[j]).val is Some by {
                            assert(ts[j + 1] == ts2[j]);
                        }
                    }
                }
                (r2, Ghost(ts))
            },
        }
    }

    /// Evaluates the expression written `text`, calling user functions (see
    /// `text_evals`).
    fn eval_text_calls<N: NumberArithmetic + NumberText, B: Builtins>(
        &mut self,
        text: &str,
        in_loop: bool,
        numbers: &N,
        builtins: &B,
    ) -> (res: (Result<Value, DataCodeError>, Ghost<ETrace>))
        requires
            old(self).wf(),
        ensures
            final(self).wf(),
            only_variables_changed(*old(self), *final(self)),
            text_evals(old(self).variable_manager.vars(), old(self).function_manager.view_map(), old(self).call_room(),
                in_loop, text@, res.1@),
            res.1@.val == result_value(res.0),
            res.1@.end == final(self).variable_manager.vars(),
        decreases old(self).call_stack.limit() - old(self).call_stack.frames().len(), 2int, 0int, 0int,
    {
        let mut parser = TokenParser::new(text);
        let e = match parser.parse_expression() {
            Ok(e) => e,
            Err(err) => {
                let ghost t = ETrace {
                    kids: Seq::empty(),
                    call: Seq::empty(),
                    val: None,
                    end: self.variable_manager.vars(),
                };
                return (Err(err), Ghost(t));
            },
        };
        self.eval_calls(&e, in_loop, numbers, builtins)
    }

    /// Evaluates the expressions written `texts` from `k` on, in order,
    /// calling user functions (see `texts_by`); their values follow those
    /// of `acc`.
    fn eval_texts_from<N: NumberArithmetic + NumberText, B: Builtins>(
        &mut self,
        txts: &Vec<String>,
        k: usize,
        acc: Vec<Value>,
        in_loop: bool,
        numbers: &N,
        builtins: &B,
    ) -> (res: (Result<Vec<Value>, DataCodeError>, Ghost<Seq<ETrace>>))
        requires
            old(self).wf(),
            k <= txts@.len(),
        ensures
            final(self).wf(),
            only_variables_changed(*old(self), *final(self)),
            list_shape((txts@.len() - k) as nat, res.1@),
            texts_by(old(self).variable_manager.vars(), old(self).function_manager.view_map(), old(self).call_room(),
                in_loop, texts(txts@).skip(k as int), res.1@),
            list_end(old(self).variable_manager.vars(), res.1@) == final(self).variable_manager.vars(),
            match res.0 {
                Ok(vs) => list_ok((txts@.len() - k) as nat, res.1@),
                Err(_) => !list_ok((txts@.len() - k) as nat, res.1@),
            },
        decreases old(self).call_stack.limit() - old(self).call_stack.frames().len(), 3int, txts@.len() - k, 0int,
    {
        if k >= txts.len() {
            return (Ok(acc), Ghost(Seq::empty()));
        }
        let ghost s = self.variable_manager.vars();
        let (r, Ghost(t)) = self.eval_text_calls(txts[k].as_str(), in_loop, numbers, builtins);
        proof {
            assert(texts(txts@).skip(k as int)[0] == txts@[k as int]@);
        }
        match r {
            Err(err) => {
                let ghost ts = seq![t];
                (Err(err), Ghost(ts))
            },
            Ok(v) => {
                let mut acc2 = acc;
                acc2.push(v);
                let (r2, Ghost(ts2)) = self.eval_texts_from(txts, k + 1, acc2, in_loop, numbers, builtins);
                let ghost ts = seq![t] + ts2;
                proof {
                    let ev = texts(txts@).skip(k as int);
                    assert(ev.subrange(1, ev.len() as int) =~= texts(txts@).skip(k + 1));
                    assert(ts.subrange(1, ts.len() as int) =~= ts2);
                    assert(ts[0] == t);
                    if ts2.len() > 0 {
                        assert(ts.last() == ts2.last());
                    }
                    assert forall|j: int| 0 <= j < ts.len() - 1 implies (#[trigger] ts[j]).val is Some by {
                        if j > 0 {
                            assert(ts[j] == ts2[j - 1]);
                        }
                    }
                    if list_ok((txts@.len() - k - 1) as nat, ts2) {
                        assert forall|j: int| 0 <= j < ts.len() implies (#[trigger] ts[j]).val is Some by {
                            if j > 0 {
                                assert(ts[j] == ts2[j - 1]);
                            }
                        }
                    }
                    if list_ok((txts@.len() - k) as nat, ts) {
                        assert forall|j: int| 0 <= j < ts2.len() implies (#[trigger] ts2[j]).val is Some by {
                            assert(ts[j + 1] == ts2[j]);
                        }
                    }
                }
                (r2, Ghost(ts))
            },
        }
    }

    /// Runs one line (see `line_by`); a `return` is run here, and user
    /// functions are called from its expressions.
    #[verifier::spinoff_prover]
    #[verifier::rlimit(60)]
    fn run_line_traced<N: NumberArithmetic + NumberText, B: Builtins>(
        &mut self,
        code: &str,
        in_function: bool,
        in_loop: bool,
        numbers: &N,
        builtins: &B,
    ) -> (res: (Result<Flow, DataCodeError>, Ghost<ETrace>))
        requires
            old(self).wf(),
            code@.len() < 0x7fff_ffff,
        ensures
            final(self).wf(),
            only_variables_changed(*old(self), *final(self)),
            line_by(old(self).variable_manager.vars(), old(self).function_manager.view_map(), old(self).call_room(),
                code@, in_function, in_loop, res.1@, flow_view(res.0), final(self).variable_manager.vars()),
        decreases old(self).call_stack.limit() - old(self).call_stack.frames().len(), 4int, 0int, 0int,
    {
        let ghost s = self.variable_manager.vars();
        let ghost fns = self.function_manager.view_map();
        let ghost room = self.call_room();
        let ghost blank = ETrace { kids: Seq::empty(), call: Seq::empty(), val: None, end: s };
        let one = vec![owned(code)];
        proof {
            assert(texts(one@) =~= seq![code@]);
        }
        match multiline_action(&one, 0) {
            LineAction::FunctionDefinition | LineAction::ForLoop | LineAction::IfStatement
            | LineAction::TryStatement => {
                let r = Err(DataCodeError::syntax_error(
                    owned("Blocks cannot be nested inside this block"),
                    self.current_line,
                    0,
                ));
                return (r, Ghost(blank));
            },
            _ => {},
        }
        let st = match block_line_statement(code, in_function, in_loop, false, self.current_line) {
            Ok(st) => st,
            Err(e) => return (Err(e), Ghost(blank)),
        };
        match st {
            LineStatement::Skip => (Ok(Flow::Normal), Ghost(blank)),
            LineStatement::Break => (Ok(Flow::Break), Ghost(blank)),
            LineStatement::Throw(t) => {
                let (rv, Ghost(et)) = self.eval_text_calls(t.as_str(), in_loop, numbers, builtins);
                let r = match rv {
                    Ok(v) => {
                        let message = match &v {
                            Value::String(m) => m.clone(),
                            _ => format_value_for_print(&v, numbers),
                        };
                        Err(DataCodeError::runtime_error(message, self.current_line))
                    },
                    Err(e) => Err(e),
                };
                (r, Ghost(et))
            },
            LineStatement::Return(t) => {
                if chars_of(t.as_str()).len() == 0 {
                    return (Ok(Flow::Return(Value::Null)), Ghost(blank));
                }
                let (rv, Ghost(et)) = self.eval_text_calls(t.as_str(), in_loop, numbers, builtins);
                let r = match rv {
                    Ok(v) => Ok(Flow::Return(v)),
                    Err(e) => Err(e),
                };
                (r, Ghost(et))
            },
            LineStatement::Declare(g, n, t) => {
                let (rv, Ghost(et)) = self.eval_text_calls(t.as_str(), in_loop, numbers, builtins);
                match rv {
                    Ok(v) => {
                        self.set_variable(n, v, g);
                        (Ok(Flow::Normal), Ghost(et))
                    },
                    Err(e) => (Err(e), Ghost(et)),
                }
            },
            LineStatement::Assign(n, t) => {
                let (rv, Ghost(et)) = self.eval_text_calls(t.as_str(), in_loop, numbers, builtins);
                match rv {
                    Ok(v) => {
                        self.set_variable(n, v, false);
                        (Ok(Flow::Normal), Ghost(et))
                    },
                    Err(e) => (Err(e), Ghost(et)),
                }
            },
            LineStatement::Print(args) => {
                let (rv, Ghost(ts)) = self.eval_texts_from(&args, 0, Vec::new(), in_loop, numbers, builtins);
                proof {
                    assert(texts(args@).skip(0) =~= texts(args@));
                }
                let ghost et = ETrace { kids: ts, call: Seq::empty(), val: None, end: self.variable_manager.vars() };
                let values = match rv {
                    Ok(v) => v,
                    Err(e) => return (Err(e), Ghost(et)),
                };
                let r = match builtins.call_builtin("print", values, Vec::new(), self.current_line) {
                    Ok(_) => Ok(Flow::Normal),
                    Err(e) => Err(e),
                };
                (r, Ghost(et))
            },
            LineStatement::Expression(t) => {
                let (rv, Ghost(et)) = self.eval_text_calls(t.as_str(), in_loop, numbers, builtins);
                let r = match rv {
                    Ok(_) => Ok(Flow::Normal),
                    Err(e) => Err(e),
                };
                (r, Ghost(et))
            },
        }
    }

    /// Runs one line (see `line_runs`); a `return` is run here, and user
    /// functions are called from its expressions.
    pub fn run_line<N: NumberArithmetic + NumberText, B: Builtins>(
        &mut self,
        code: &str,
        in_function: bool,
        in_loop: bool,
        numbers: &N,
        builtins: &B,
    ) -> (r: Result<Flow, DataCodeError>)
        requires
            old(self).wf(),
            code@.len() < 0x7fff_ffff,
        ensures
            final(self).wf(),
            only_variables_changed(*old(self), *final(self)),
            line_runs(old(self).variable_manager.vars(), old(self).function_manager.view_map(), old(self).call_room(),
                code@, in_function, in_loop, flow_view(r), final(self).variable_manager.vars()),
    {
        let (r, Ghost(et)) = self.run_line_traced(code, in_function, in_loop, numbers, builtins);
        r
    }

    /// Runs lines `i..` of `body` in order (see `body_by`).
    fn run_lines_from<N: NumberArithmetic + NumberText, B: Builtins>(
        &mut self,
        body: &Vec<String>,
        i: usize,
        in_function: bool,
        in_loop: bool,
        numbers: &N,
        builtins: &B,
    ) -> (res: (Result<Flow, DataCodeError>, Ghost<BodyTrace>))
        requires
            old(self).wf(),
            i <= body@.len(),
            lines_short(texts(body@)),
        ensures
            final(self).wf(),
            only_variables_changed(*old(self), *final(self)),
            body_by(old(self).variable_manager.vars(), old(self).function_manager.view_map(), old(self).call_room(),
                in_function, in_loop, texts(body@), res.1@, i as int, flow_view(res.0),
                final(self).variable_manager.vars()),
            res.1@.states.len() == body@.len(),
            res.1@.outs.len() == body@.len(),
            res.1@.evals.len() == body@.len(),
        decreases old(self).call_stack.limit() - old(self).call_stack.frames().len(), 5int, body@.len() - i, 0int,
    {
        let ghost s = self.variable_manager.vars();
        let ghost n = body@.len();
        let ghost blank = ETrace { kids: Seq::empty(), call: Seq::empty(), val: None, end: s };
        if i >= body.len() {
            let ghost t = BodyTrace {
                states: Seq::new(n, |j: int| s),
                outs: Seq::new(n, |j: int| FlowView::Normal),
                evals: Seq::new(n, |j: int| blank),
            };
            return (Ok(Flow::Normal), Ghost(t));
        }
        proof {
            assert(texts(body@)[i as int] == body@[i as int]@);
        }
        let (r, Ghost(et)) = self.run_line_traced(body[i].as_str(), in_function, in_loop, numbers, builtins);
        let ghost s1 = self.variable_manager.vars();
        let ghost o1 = flow_view(r);
        match r {
            Ok(Flow::Normal) => {
                let (r2, Ghost(t2)) = self.run_lines_from(body, i + 1, in_function, in_loop, numbers, builtins);
                let ghost t = BodyTrace {
                    states: t2.states.update(i as int, s1),
                    outs: t2.outs.update(i as int, FlowView::Normal),
                    evals: t2.evals.update(i as int, et),
                };
                proof {
                    lemma_body_by_from(s1, old(self).function_manager.view_map(), old(self).call_room(), in_function,
                        in_loop, texts(body@), t2, t, i + 1, flow_view(r2), self.variable_manager.vars());
                }
                (r2, Ghost(t))
            },
            other => {
                let ghost t = BodyTrace {
                    states: Seq::new(n, |j: int| s1),
                    outs: Seq::new(n, |j: int| o1),
                    evals: Seq::new(n, |j: int| et),
                };
                (other, Ghost(t))
            },
        }
    }

    /// Runs the lines of `body` in order (see `body_runs`): each line's
    /// statement (see `line_by`) until one ends otherwise than normally.
    pub fn run_lines<N: NumberArithmetic + NumberText, B: Builtins>(
        &mut self,
        body: &Vec<String>,
        in_function: bool,
        in_loop: bool,
        numbers: &N,
        builtins: &B,
    ) -> (r: Result<Flow, DataCodeError>)
        requires
            old(self).wf(),
            lines_short(texts(body@)),
        ensures
            final(self).wf(),
            only_variables_changed(*old(self), *final(self)),
            body_runs(old(self).variable_manager.vars(), old(self).function_manager.view_map(), old(self).call_room(),
                in_function, in_loop, texts(body@), flow_view(r), final(self).variable_manager.vars()),
    {
        let (r, Ghost(t)) = self.run_lines_from(body, 0, in_function, in_loop, numbers, builtins);
        r
    }

    /// Runs passes `k..` of a `for` loop (see `loop_by`).
    fn loop_from<N: NumberArithmetic + NumberText, B: Builtins>(
        &mut self,
        var: &str,
        items: &Vec<Value>,
        k: usize,
        body: &Vec<String>,
        in_function: bool,
        numbers: &N,
        builtins: &B,
    ) -> (res: (Result<Flow, DataCodeError>, Ghost<Seq<PassTrace>>))
        requires
            old(self).wf(),
            k <= items@.len(),
            lines_short(texts(body@)),
        ensures
            final(self).wf(),
            only_variables_changed(*old(self), *final(self)),
            loop_by(
                old(self).variable_manager.vars(),
                old(self).function_manager.view_map(), old(self).call_room(),
                in_function,
                var@,
                value_views(items@).skip(k as int),
                texts(body@),
                res.1@,
                flow_view(res.0),
                final(self).variable_manager.vars(),
            ),
        decreases items@.len() - k,
    {
        let ghost its = value_views(items@).skip(k as int);
        if k >= items.len() {
            assert(its.len() == 0);
            return (Ok(Flow::Normal), Ghost(Seq::empty()));
        }
        self.enter_loop_scope();
        self.set_loop_variable(owned(var), items[k].copy());
        proof {
            assert(its[0] == items@[k as int]@);
        }
        let (rb, Ghost(bt)) = self.run_lines_from(body, 0, in_function, true, numbers, builtins);
        proof {
            assert(texts(body@).skip(0) =~= texts(body@));
        }
        let ghost last = self.variable_manager.vars();
        let ghost pass = PassTrace { body: bt, out: flow_view(rb), last };
        let ghost one = seq![pass];
        match rb {
            Ok(Flow::Normal) => {
                self.exit_loop_scope();
                let (r2, Ghost(ps2)) = self.loop_from(var, items, k + 1, body, in_function, numbers, builtins);
                let ghost ps = seq![pass] + ps2;
                proof {
                    assert(its.drop_first() =~= value_views(items@).skip(k + 1));
                    assert(ps.drop_first() =~= ps2);
                }
                (r2, Ghost(ps))
            },
            Ok(Flow::Break) => {
                self.exit_loop_scope();
                (Ok(Flow::Normal), Ghost(one))
            },
            Ok(Flow::Return(v)) => {
                self.exit_loop_scope();
                (Ok(Flow::Return(v)), Ghost(one))
            },
            Err(e) => (Err(e), Ghost(one)),
        }
    }

    /// Runs a `for` loop binding `var` to each of `items` in turn (see
    /// `loop_runs`), with the lines of `body` run as inside a loop and, when
    /// a function scope or a call frame is open, inside a function. The loop
    /// counts as active while it runs; a loop that fails stays counted, as
    /// its scope stays open.
    pub fn execute_for_loop<N: NumberArithmetic + NumberText, B: Builtins>(
        &mut self,
        var: &str,
        items: Vec<Value>,
        body: &Vec<String>,
        numbers: &N,
        builtins: &B,
    ) -> (r: Result<Flow, DataCodeError>)
        requires
            old(self).wf(),
            old(self).active_loop_count < usize::MAX,
            lines_short(texts(body@)),
        ensures
            final(self).wf(),
            *final(self) == (Interpreter {
                variable_manager: final(self).variable_manager,
                call_stack: final(self).call_stack,
                active_loop_count: final(self).active_loop_count,
                ..*old(self)
            }),
            final(self).call_stack.frames() == old(self).call_stack.frames(),
            final(self).call_stack.limit() == old(self).call_stack.limit(),
            final(self).active_loop_count == old(self).active_loop_count + if r is Err { 1int } else { 0int },
            loop_runs(
                old(self).variable_manager.vars(),
                old(self).function_manager.view_map(), old(self).call_room(),
                old(self).inside_function(),
                var@,
                value_views(items@),
                texts(body@),
                flow_view(r),
                final(self).variable_manager.vars(),
            ),
    {
        let inside = self.variable_manager.is_in_function() || !self.call_stack.is_empty();
        self.active_loop_count = self.active_loop_count + 1;
        let (r, Ghost(ps)) = self.loop_from(var, &items, 0, body, inside, numbers, builtins);
        proof {
            assert(value_views(items@).skip(0) =~= value_views(items@));
        }
        if r.is_ok() {
            self.active_loop_count = self.active_loop_count - 1;
        }
        r
    }

    /// Calls the user function `name` with `args` (see `call_by`): an
    /// unknown function, a wrong number of arguments, a full call stack or
    /// too long a body line is an error; otherwise a frame is pushed, a
    /// function scope binds the parameters, the body runs as inside a
    /// function, and the frame and the scope are taken off again.
    fn call_function<N: NumberArithmetic + NumberText, B: Builtins>(
        &mut self,
        name: &str,
        args: Vec<Value>,
        in_loop: bool,
        numbers: &N,
        builtins: &B,
    ) -> (res: (Result<Value, DataCodeError>, Ghost<CallTrace>))
        requires
            old(self).wf(),
        ensures
            final(self).wf(),
            only_variables_changed(*old(self), *final(self)),
            call_by(old(self).variable_manager.vars(), old(self).function_manager.view_map(), old(self).call_room(),
                in_loop, name@, value_list(args@), res.1@, result_value(res.0), final(self).variable_manager.vars()),
        decreases old(self).call_stack.limit() - old(self).call_stack.frames().len(), 0int, 0int, 0int,
    {
        let ghost s0 = old(self).variable_manager.vars();
        let ghost dummy = CallTrace {
            lines: BodyTrace { states: Seq::empty(), outs: Seq::empty(), evals: Seq::empty() },
            out: FlowView::Fail,
            last: s0,
        };
        let (params, body) = match self.function_manager.get_function(name) {
            Some(f) => (copy_lines(&f.parameters), copy_lines(&f.body)),
            None => {
                let m = framed_name("Function '", name, "' not found");
                return (Err(DataCodeError::runtime_error(m, self.current_line)), Ghost(dummy));
            },
        };
        let ghost f = self.function_manager.view_map()[name@];
        proof {
            lemma_value_list(args@);
            assert(texts(params@).len() == params@.len());
            assert(texts(f.parameters@).len() == f.parameters@.len());
        }
        if params.len() != args.len() {
            let m = framed_name("Wrong number of arguments for function '", name, "'");
            return (Err(DataCodeError::runtime_error(m, self.current_line)), Ghost(dummy));
        }
        if !all_short(&body) {
            return (Err(DataCodeError::runtime_error(owned("Line too long"), self.current_line)), Ghost(dummy));
        }
        let frame = CallFrame::new(owned(name), copy_values(&args), None, self.call_stack.len());
        match self.call_stack.push(frame) {
            Ok(()) => {},
            Err(e) => return (Err(e), Ghost(dummy)),
        }
        let ghost vs = value_list(args@);
        proof {
            assert(args@.map_values(|a: Value| a@) =~= vs);
            assert(params@.map_values(|p: String| p@) =~= texts(f.parameters@));
        }
        self.variable_manager.enter_function_scope();
        let ps = params.as_slice();
        let bound = self.variable_manager.set_function_parameters(ps, args);
        proof {
            assert(bound is Ok);
            assert(self.variable_manager.calls() =~= s0.calls.push(
                bind_params(Map::empty(), texts(f.parameters@), vs, texts(f.parameters@).len())));
            assert(self.variable_manager.vars() == enter_call(s0, texts(f.parameters@), vs));
        }
        let (rb, Ghost(bt)) = self.run_lines_from(&body, 0, true, in_loop, numbers, builtins);
        let ghost last = self.variable_manager.vars();
        let _ = self.call_stack.pop();
        self.variable_manager.exit_function_scope();
        let r = match rb {
            Ok(Flow::Return(v)) => Ok(v),
            Ok(_) => Ok(Value::Null),
            Err(e) => Err(e),
        };
        let ghost ct = CallTrace { lines: bt, out: flow_view(rb), last };
        assert(self.call_stack.frames() == old(self).call_stack.frames());
        assert(self.call_stack.limit() == old(self).call_stack.limit());
        assert(*self == (Interpreter { variable_manager: self.variable_manager, call_stack: self.call_stack, ..*old(self) }));
        (r, Ghost(ct))
    }

    /// Calls the user function `name` with `args` (see `call_gives`), with
    /// its body run as inside a loop when a loop is active.
    pub fn call_user_function<N: NumberArithmetic + NumberText, B: Builtins>(
        &mut self,
        name: &str,
        args: Vec<Value>,
        numbers: &N,
        builtins: &B,
    ) -> (r: Result<Value, DataCodeError>)
        requires
            old(self).wf(),
        ensures
            final(self).wf(),
            only_variables_changed(*old(self), *final(self)),
            call_gives(old(self).variable_manager.vars(), old(self).function_manager.view_map(),
                old(self).call_room(), old(self).active_loop_count > 0, name@, value_views(args@), result_value(r),
                final(self).variable_manager.vars()),
    {
        proof {
            lemma_value_list(args@);
            assert(value_views(args@) =~= value_list(args@));
        }
        let in_loop = self.active_loop_count > 0;
        let (r, Ghost(ct)) = self.call_function(name, args, in_loop, numbers, builtins);
        r
    }

    /// Defines the function whose definition's lines are `function_lines`
    /// (see `function_definition`); a syntax error at the current line,
    /// changing nothing, for a malformed header.
    pub fn parse_and_define_function(&mut self, function_lines: &[String]) -> (r: Result<(), DataCodeError>)
        requires
            old(self).wf(),
        ensures
            final(self).wf(),
            *final(self) == (Interpreter { function_manager: final(self).function_manager, ..*old(self) }),
            match function_definition(texts(function_lines@)) {
                Ok((name, params, body, global)) => r is Ok && final(self).function_manager.view_map().contains_key(name)
                    && final(self).function_manager.view_map() == old(self).function_manager.view_map().insert(
                        name,
                        final(self).function_manager.view_map()[name],
                    )
                    && texts(final(self).function_manager.view_map()[name].parameters@) == params
                    && texts(final(self).function_manager.view_map()[name].body@) == body
                    && final(self).function_manager.view_map()[name].is_global == global,
                Err(m) => syntax_error_with(r, m, old(self).current_line) && final(self).function_manager.view_map()
                    == old(self).function_manager.view_map(),
            },
    {
        match parse_function_definition(function_lines, self.current_line) {
            Ok(f) => {
                self.add_user_function(f);
                Ok(())
            },
            Err(e) => Err(e),
        }
    }

    /// Runs a body, unless a line is too long (see `guarded_body_runs`).
    fn run_guarded<N: NumberArithmetic + NumberText, B: Builtins>(
        &mut self,
        body: &Vec<String>,
        in_function: bool,
        in_loop: bool,
        numbers: &N,
        builtins: &B,
    ) -> (r: Result<Flow, DataCodeError>)
        requires
            old(self).wf(),
        ensures
            final(self).wf(),
            only_variables_changed(*old(self), *final(self)),
            guarded_body_runs(old(self).variable_manager.vars(), old(self).function_manager.view_map(), old(self).call_room(), in_function,
                in_loop, texts(body@), flow_view(r), final(self).variable_manager.vars()),
    {
        if !all_short(body) {
            return Err(DataCodeError::runtime_error(owned("Line too long"), self.current_line));
        }
        self.run_lines(body, in_function, in_loop, numbers, builtins)
    }

    /// Runs the branches `k..` of an `if` (see `if_by`).
    fn run_branches<N: NumberArithmetic + NumberText, B: Builtins>(
        &mut self,
        parts: &IfStatementParts,
        k: usize,
        in_function: bool,
        in_loop: bool,
        numbers: &N,
        builtins: &B,
    ) -> (res: (Result<Flow, DataCodeError>, Ghost<Seq<ETrace>>))
        requires
            old(self).wf(),
            k <= parts.blocks@.len(),
        ensures
            final(self).wf(),
            only_variables_changed(*old(self), *final(self)),
            if_by(old(self).variable_manager.vars(), old(self).function_manager.view_map(), old(self).call_room(), in_function, in_loop,
                branch_views(parts.blocks@).skip(k as int), optional_texts(parts.else_body), res.1@,
                flow_view(res.0), final(self).variable_manager.vars()),
        decreases parts.blocks@.len() - k,
    {
        let ghost bs = branch_views(parts.blocks@).skip(k as int);
        if k >= parts.blocks.len() {
            assert(bs.len() == 0);
            let r = match &parts.else_body {
                Some(body) => self.run_guarded(body, in_function, in_loop, numbers, builtins),
                None => Ok(Flow::Normal),
            };
            return (r, Ghost(Seq::empty()));
        }
        proof {
            assert(bs[0] == (parts.blocks@[k as int].condition@, texts(parts.blocks@[k as int].body@)));
        }
        let (rv, Ghost(cv)) = self.eval_text_calls(parts.blocks[k].condition.as_str(), in_loop, numbers, builtins);
        let v = match rv {
            Ok(v) => v,
            Err(e) => {
                let ghost one = seq![cv];
                return (Err(e), Ghost(one));
            },
        };
        if ControlFlowHandler::to_bool(&v, numbers) {
            let r = self.run_guarded(&parts.blocks[k].body, in_function, in_loop, numbers, builtins);
            let ghost one = seq![cv];
            (r, Ghost(one))
        } else {
            let (r, Ghost(rest)) = self.run_branches(parts, k + 1, in_function, in_loop, numbers, builtins);
            let ghost conds = seq![cv] + rest;
            proof {
                assert(bs.drop_first() =~= branch_views(parts.blocks@).skip(k + 1));
                assert(conds.drop_first() =~= rest);
            }
            (r, Ghost(conds))
        }
    }

    /// Runs an `if` statement from its lines (see `if_runs`): the body of
    /// the first branch whose condition holds, else the `else` body; the
    /// bodies run as plain lines (see `run_lines`).
    fn run_if<N: NumberArithmetic + NumberText, B: Builtins>(
        &mut self,
        if_lines: &Vec<String>,
        in_function: bool,
        in_loop: bool,
        numbers: &N,
        builtins: &B,
    ) -> (r: Result<Flow, DataCodeError>)
        requires
            old(self).wf(),
        ensures
            final(self).wf(),
            only_variables_changed(*old(self), *final(self)),
            if_runs(old(self).variable_manager.vars(), old(self).function_manager.view_map(), old(self).call_room(), in_function, in_loop,
                texts(if_lines@), flow_view(r), final(self).variable_manager.vars()),
    {
        let parts = match split_if_statement(if_lines.as_slice(), self.current_line) {
            Ok(p) => p,
            Err(e) => return Err(e),
        };
        let (r, Ghost(conds)) = self.run_branches(&parts, 0, in_function, in_loop, numbers, builtins);
        proof {
            assert(branch_views(parts.blocks@).skip(0) =~= branch_views(parts.blocks@));
        }
        r
    }

    /// Runs a `try` statement from its lines: the `try` part; on an error,
    /// the `catch` part when there is one (its variable set to the error's
    /// message), else the error goes on; then the `finally` part, whose own
    /// error wins; the block and its scope are opened and closed around it.
    fn run_try<N: NumberArithmetic + NumberText, B: Builtins>(
        &mut self,
        try_lines: &Vec<String>,
        in_function: bool,
        in_loop: bool,
        numbers: &N,
        builtins: &B,
    ) -> (r: Result<Flow, DataCodeError>)
        requires
            old(self).wf(),
        ensures
            final(self).wf(),
            *final(self) == (Interpreter {
                variable_manager: final(self).variable_manager,
                call_stack: final(self).call_stack,
                exception_stack: final(self).exception_stack,
                ..*old(self)
            }),
            final(self).call_stack.frames() == old(self).call_stack.frames(),
            final(self).call_stack.limit() == old(self).call_stack.limit(),
            final(self).exception_stack@ == old(self).exception_stack@,
            try_runs(old(self).variable_manager.vars(), old(self).function_manager.view_map(), old(self).call_room(), in_function, in_loop,
                old(self).exception_stack@.len() == usize::MAX, texts(try_lines@), flow_view(r),
                final(self).variable_manager.vars()),
    {
        let parts = split_try_statement(try_lines.as_slice());
        let ghost p = try_parts(texts(try_lines@));
        let ghost s = old(self).variable_manager.vars();
        let ghost fns = old(self).function_manager.view_map();
        let catch_var = match &parts.catch_var {
            Some(v) => Some(v.clone()),
            None => None,
        };
        let catch_body = copy_lines(&parts.catch_body);
        let finally_body = copy_lines(&parts.finally_body);
        if self.exception_stack.len() == usize::MAX || !all_short(&catch_body) || !all_short(&finally_body)
            || !all_short(&parts.try_body) {
            return Err(DataCodeError::runtime_error(owned("Cannot run this try statement"), self.current_line));
        }
        proof {
            assert(optional_text(catch_var) == p.catch_var);
        }
        let try_body = self.begin_try(parts);
        let ghost s0 = self.variable_manager.vars();
        assert(s0 == enter_loop(s));
        let mut result = self.run_lines(&try_body, in_function, in_loop, numbers, builtins);
        let ghost o1 = flow_view(result);
        let ghost s1 = self.variable_manager.vars();
        let ghost mut m: Seq<char> = Seq::empty();
        if let Err(e) = result {
            if catch_body.len() > 0 {
                match catch_var {
                    Some(v) => {
                        let message = match e {
                            DataCodeError::SyntaxError { message, .. } => message,
                            DataCodeError::RuntimeError { message, .. } => message,
                        };
                        proof { m = message@; }
                        self.set_variable(v, Value::String(message), false);
                    },
                    None => {},
                }
                result = self.run_lines(&catch_body, in_function, in_loop, numbers, builtins);
            } else {
                result = Err(e);
            }
        }
        let ghost o2 = flow_view(result);
        let ghost s2 = self.variable_manager.vars();
        let _ = self.pop_try_block();
        let ghost mut o3 = o2;
        if finally_body.len() > 0 {
            let fr = self.run_lines(&finally_body, in_function, in_loop, numbers, builtins);
            proof { o3 = flow_view(fr); }
            match fr {
                Err(e) => {
                    result = Err(e);
                },
                Ok(_) => {},
            }
        }
        let ghost s3 = self.variable_manager.vars();
        self.exit_loop_scope();
        proof {
            let t = TryTrace { after_try: (o1, s1), message: m, after_catch: (o2, s2), after_finally: (o3, s3) };
            assert(try_by(s, fns, old(self).call_room(), in_function, in_loop, p, t, flow_view(result), self.variable_manager.vars()));
        }
        result
    }

    /// Runs a `for` loop from its lines: the header (see `parse_for_header`)
    /// with one variable, the value of the iterated text, which must be a
    /// list, and the body (see `for_loop_body`) run for each element (see
    /// `execute_for_loop`).
    fn run_for<N: NumberArithmetic + NumberText, B: Builtins>(
        &mut self,
        for_lines: &Vec<String>,
        numbers: &N,
        builtins: &B,
    ) -> (r: Result<Flow, DataCodeError>)
        requires
            old(self).wf(),
            for_lines@.len() > 0,
            lines_short(texts(for_lines@)),
            no_bare_for(texts(for_lines@)),
        ensures
            final(self).wf(),
            *final(self) == (Interpreter {
                variable_manager: final(self).variable_manager,
                call_stack: final(self).call_stack,
                active_loop_count: final(self).active_loop_count,
                ..*old(self)
            }),
            final(self).call_stack.frames() == old(self).call_stack.frames(),
            final(self).call_stack.limit() == old(self).call_stack.limit(),
            final(self).active_loop_count == old(self).active_loop_count
                || (r is Err && final(self).active_loop_count == old(self).active_loop_count + 1),
            for_runs(old(self).variable_manager.vars(), old(self).function_manager.view_map(), old(self).call_room(),
                old(self).inside_function(), old(self).active_loop_count > 0, old(self).active_loop_count == usize::MAX, texts(for_lines@), flow_view(r),
                final(self).variable_manager.vars()),
    {
        proof { assert(texts(for_lines@)[0] == for_lines@[0]@); }
        let (vars, iter) = match parse_for_header(for_lines[0].as_str(), self.current_line) {
            Ok(h) => h,
            Err(e) => return Err(e),
        };
        if vars.len() != 1 {
            return Err(DataCodeError::runtime_error(
                owned("A for loop over these values takes one variable"),
                self.current_line,
            ));
        }
        let in_loop = self.active_loop_count > 0;
        let (rv, Ghost(et)) = self.eval_text_calls(iter.as_str(), in_loop, numbers, builtins);
        proof {
            assert(text_evals(old(self).variable_manager.vars(), old(self).function_manager.view_map(),
                old(self).call_room(), in_loop, iter@, et));
            lemma_text_scopes(old(self).variable_manager.vars(), old(self).function_manager.view_map(),
                old(self).call_room(), in_loop, iter@, et);
        }
        let value = match rv {
            Ok(v) => v,
            Err(e) => return Err(e),
        };
        let items = match value {
            Value::Array(items) => items,
            _ => return Err(DataCodeError::runtime_error(owned("Cannot iterate over this value"), self.current_line)),
        };
        proof {
            lemma_value_list(items@);
            assert(value_views(items@) =~= value_list(items@));
            assert(texts(vars@)[0] == vars@[0]@);
        }
        let body = for_loop_body(for_lines.as_slice(), vars[0].as_str());
        if !all_short(&body) || self.active_loop_count == usize::MAX {
            return Err(DataCodeError::runtime_error(owned("Cannot run this for loop"), self.current_line));
        }
        self.execute_for_loop(vars[0].as_str(), items, &body, numbers, builtins)
    }

    /// Runs the step of a program at line `i` (see `program_step`) and gives
    /// how it ended and the index of the line after it.
    #[verifier::spinoff_prover]
    #[verifier::rlimit(60)]
    fn run_step<N: NumberArithmetic + NumberText, B: Builtins>(
        &mut self,
        lines: &Vec<String>,
        i: usize,
        numbers: &N,
        builtins: &B,
    ) -> (res: (Result<Flow, DataCodeError>, usize))
        requires
            old(self).wf(),
            i < lines@.len(),
            lines_short(texts(lines@)),
            no_bare_for(texts(lines@)),
        ensures
            final(self).wf(),
            *final(self) == (Interpreter {
                variable_manager: final(self).variable_manager,
                call_stack: final(self).call_stack,
                function_manager: final(self).function_manager,
                current_line: final(self).current_line,
                active_loop_count: final(self).active_loop_count,
                exception_stack: final(self).exception_stack,
                ..*old(self)
            }),
            final(self).call_stack.frames() == old(self).call_stack.frames(),
            final(self).call_stack.limit() == old(self).call_stack.limit(),
            final(self).exception_stack@ == old(self).exception_stack@,
            final(self).active_loop_count == old(self).active_loop_count
                || (res.0 is Err && final(self).active_loop_count == old(self).active_loop_count + 1),
            program_step(old(self).variable_manager.vars(), old(self).function_manager.view_map(), old(self).call_room(),
                old(self).call_stack.frames().len() > 0, old(self).active_loop_count > 0,
                old(self).active_loop_count == usize::MAX, old(self).exception_stack@.len() == usize::MAX,
                texts(lines@), i as int, ProgramStep {
                    out: flow_view(res.0),
                    vars: final(self).variable_manager.vars(),
                    fns: final(self).function_manager.view_map(),
                    next: res.1 as int,
                }),
    {
        let ghost ls = texts(lines@);
        let n = lines.len();
        proof { assert(ls[i as int] == lines@[i as int]@); }
        let action = multiline_action(lines.as_slice(), i);
        if self.current_line < usize::MAX {
            match action {
                LineAction::Skip => {},
                _ => {
                    self.current_line = self.current_line + 1;
                },
            }
        }
        let in_function = self.variable_manager.is_in_function() || !self.call_stack.is_empty();
        let in_loop = self.active_loop_count > 0;
        match action {
            LineAction::Skip => (Ok(Flow::Normal), i + 1),
            LineAction::CommentUntil(j) => (Ok(Flow::Normal), if j >= i && j < n { j + 1 } else { i + 1 }),
            LineAction::UnclosedComment => (
                Err(DataCodeError::syntax_error(owned("Unclosed multiline comment"), self.current_line, 0)),
                i + 1,
            ),
            LineAction::FunctionDefinition => {
                let end = function_definition_end(lines.as_slice(), i);
                let stop = if end < n && end >= i { end + 1 } else { n };
                let part = lines_between(lines, i, stop);
                (match self.parse_and_define_function(part.as_slice()) {
                    Ok(()) => Ok(Flow::Normal),
                    Err(e) => Err(e),
                }, stop)
            },
            LineAction::ForLoop => {
                let end = match for_loop_end(lines.as_slice(), i, self.current_line) {
                    Ok(e) => e,
                    Err(e) => return (Err(e), i + 1),
                };
                let stop = if end < n && end >= i { end + 1 } else { n };
                let part = lines_between(lines, i, stop);
                proof {
                    assert forall|k: int| 0 <= k < texts(part@).len() implies (#[trigger] texts(part@)[k]).len()
                        < 0x7fff_ffff && trimmed(texts(part@)[k]) != seq!['f', 'o', 'r', ' ', 'd', 'o'] by {
                        assert(texts(part@)[k] == ls[i + k]);
                    }
                }
                (self.run_for(&part, numbers, builtins), stop)
            },
            LineAction::IfStatement => {
                let end = if_statement_end(lines.as_slice(), i);
                let stop = if end < n && end >= i { end + 1 } else { n };
                let part = lines_between(lines, i, stop);
                (self.run_if(&part, in_function, in_loop, numbers, builtins), stop)
            },
            LineAction::TryStatement => {
                let end = try_statement_end(lines.as_slice(), i);
                let stop = if end < n && end >= i { end + 1 } else { n };
                let part = lines_between(lines, i, stop);
                (self.run_try(&part, in_function, in_loop, numbers, builtins), stop)
            },
            LineAction::MultilineAssignment => {
                let (joined, stop) = join_declaration(lines, i);
                if chars_of(joined.as_str()).len() >= 0x7fff_ffff {
                    return (Err(DataCodeError::runtime_error(owned("Line too long"), self.current_line)), stop);
                }
                (self.run_line(joined.as_str(), in_function, in_loop, numbers, builtins), stop)
            },
            LineAction::Simple => {
                proof { assert(ls[i as int].len() < 0x7fff_ffff); }
                (self.run_line(lines[i].as_str(), in_function, in_loop, numbers, builtins), i + 1)
            },
        }
    }

    /// Runs the lines of a program from line `i` (see `program_by`).
    #[verifier::spinoff_prover]
    #[verifier::rlimit(40)]
    fn run_program_from<N: NumberArithmetic + NumberText, B: Builtins>(
        &mut self,
        lines: &Vec<String>,
        i: usize,
        numbers: &N,
        builtins: &B,
    ) -> (res: (Result<Flow, DataCodeError>, Ghost<Seq<ProgramStep>>))
        requires
            old(self).wf(),
            i <= lines@.len(),
            lines_short(texts(lines@)),
            no_bare_for(texts(lines@)),
        ensures
            final(self).wf(),
            *final(self) == (Interpreter {
                variable_manager: final(self).variable_manager,
                call_stack: final(self).call_stack,
                function_manager: final(self).function_manager,
                current_line: final(self).current_line,
                active_loop_count: final(self).active_loop_count,
                exception_stack: final(self).exception_stack,
                ..*old(self)
            }),
            final(self).call_stack.frames() == old(self).call_stack.frames(),
            final(self).call_stack.limit() == old(self).call_stack.limit(),
            final(self).exception_stack@ == old(self).exception_stack@,
            final(self).active_loop_count == old(self).active_loop_count
                || (res.0 is Err && final(self).active_loop_count == old(self).active_loop_count + 1),
            program_by(old(self).variable_manager.vars(), old(self).function_manager.view_map(), old(self).call_room(),
                old(self).call_stack.frames().len() > 0, old(self).active_loop_count > 0,
                old(self).active_loop_count == usize::MAX, old(self).exception_stack@.len() == usize::MAX,
                texts(lines@), i as int, res.1@, flow_view(res.0), final(self).variable_manager.vars(),
                final(self).function_manager.view_map()),
        decreases lines@.len() - i,
    {
        if i >= lines.len() {
            return (Ok(Flow::Normal), Ghost(Seq::empty()));
        }
        let (flow, next) = self.run_step(lines, i, numbers, builtins);
        let ghost st = ProgramStep {
            out: flow_view(flow),
            vars: self.variable_manager.vars(),
            fns: self.function_manager.view_map(),
            next: next as int,
        };
        match flow {
            Ok(Flow::Normal) => {
                proof { lemma_step_moves_on(old(self).variable_manager.vars(), old(self).function_manager.view_map(),
                    old(self).call_room(),
                    old(self).call_stack.frames().len() > 0, old(self).active_loop_count > 0,
                    old(self).active_loop_count == usize::MAX, old(self).exception_stack@.len() == usize::MAX,
                    texts(lines@), i as int, st); }
                let (r2, Ghost(t2)) = self.run_program_from(lines, next, numbers, builtins);
                let ghost t = seq![st] + t2;
                proof {
                    assert(t.drop_first() =~= t2);
                }
                (r2, Ghost(t))
            },
            other => {
                let ghost t1 = seq![st];
                (other, Ghost(t1))
            },
        }
    }

    /// Runs the lines of a program (see `program_runs`): blank lines and
    /// comments are skipped; a function definition is defined; a `for` loop,
    /// an `if` and a `try` run as a whole; a declaration that spans lines
    /// runs joined; any other line runs on its own (see `run_line`). The run
    /// stops at the first error, or at a `break` or a `return`, which ends
    /// it as it ended.
    pub fn execute_multiline<N: NumberArithmetic + NumberText, B: Builtins>(
        &mut self,
        lines: &Vec<String>,
        numbers: &N,
        builtins: &B,
    ) -> (r: Result<Flow, DataCodeError>)
        requires
            old(self).wf(),
        ensures
            final(self).wf(),
            !lines_short(texts(lines@)) || !no_bare_for(texts(lines@)) ==> r is Err && *final(self) == *old(self),
            *final(self) == (Interpreter {
                variable_manager: final(self).variable_manager,
                call_stack: final(self).call_stack,
                function_manager: final(self).function_manager,
                current_line: final(self).current_line,
                active_loop_count: final(self).active_loop_count,
                exception_stack: final(self).exception_stack,
                ..*old(self)
            }),
            final(self).call_stack.frames() == old(self).call_stack.frames(),
            final(self).call_stack.limit() == old(self).call_stack.limit(),
            final(self).exception_stack@ == old(self).exception_stack@,
            final(self).active_loop_count == old(self).active_loop_count
                || (r is Err && final(self).active_loop_count == old(self).active_loop_count + 1),
            lines_short(texts(lines@)) && no_bare_for(texts(lines@)) ==> program_runs(
                old(self).variable_manager.vars(), old(self).function_manager.view_map(), old(self).call_room(),
                old(self).call_stack.frames().len() > 0, old(self).active_loop_count > 0,
                old(self).active_loop_count == usize::MAX, old(self).exception_stack@.len() == usize::MAX,
                texts(lines@), flow_view(r), final(self).variable_manager.vars(),
                final(self).function_manager.view_map()),
    {
        if !all_short(lines) {
            return Err(DataCodeError::runtime_error(owned("Line too long"), self.current_line));
        }
        if has_bare_for(lines) {
            return Err(DataCodeError::syntax_error(
                owned("Invalid for syntax: expected 'for variable in iterable do'"),
                self.current_line,
                0,
            ));
        }
        let (r, Ghost(t)) = self.run_program_from(lines, 0, numbers, builtins);
        r
    }
}

} // verus!
