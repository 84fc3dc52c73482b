//! The DataCode interpreter's state and its parts: user functions, variable
//! scopes, call frames, the exception stack, and the line-level helpers of
//! statement execution.
pub mod user_functions;
pub mod variables;
pub mod execution;
pub mod call_frame;
pub mod control_flow;
pub mod blocks;
pub mod expressions;
pub mod lines;
pub mod run;

use vstd::prelude::*;
use crate::error::DataCodeError;
use crate::text::owned;
use crate::value::{Value, ValueView};
use self::call_frame::{CallFrame, CallStack};
use self::user_functions::{TryBlock, UserFunction, UserFunctionManager};
use self::variables::{Scope, VariableManager};
use self::blocks::{syntax_error_with, TryStatementParts};
use self::lines::{block_line, block_line_statement, simple_line, simple_line_statement, LineStatement};

verus! {

/// The deepest nesting of function scopes that `enter_function_scope` allows.
pub const MAX_RECURSION_DEPTH: usize = 1000;

/// The greatest number of frames of the interpreter's call stack.
pub const MAX_CALL_STACK_DEPTH: usize = 1000000;

/// The index of the innermost block of `stack` that can handle an error
/// (see `TryBlock::can_handle_exception`).
pub open spec fn handler_index(stack: Seq<TryBlock>) -> Option<int>
    decreases stack.len(),
{
    if stack.len() == 0 {
        None
    } else if stack.last().is_active && stack.last().catch_body.len() > 0 {
        Some(stack.len() - 1)
    } else {
        handler_index(stack.drop_last())
    }
}

/// The interpreter's state: variables and user functions, the flags of the
/// statements being run, the current line, the exception stack, the depth
/// of function scopes, and the call stack.
pub struct Interpreter {
    pub variable_manager: VariableManager,
    pub function_manager: UserFunctionManager,
    pub return_value: Option<Value>,
    pub break_requested: bool,
    pub continue_requested: bool,
    pub active_loop_count: usize,
    pub current_line: usize,
    pub exception_stack: Vec<TryBlock>,
    pub recursion_depth: usize,
    pub call_stack: CallStack,
    pub use_call_frame_engine: bool,
}

impl Interpreter {
    /// The variables, functions and frames are consistent.
    pub open spec fn wf(&self) -> bool {
        &&& self.variable_manager.wf()
        &&& self.function_manager.wf()
        &&& forall|i: int| 0 <= i < self.call_stack.frames().len() ==> (#[trigger] self.call_stack.frames()[i]).locals.wf()
    }

    /// The value of a variable: a local of the innermost frame when frames
    /// are in use, else as the variable manager resolves it.
    pub open spec fn lookup(&self, name: Seq<char>) -> Option<ValueView> {
        let frames = self.call_stack.frames();
        if self.use_call_frame_engine && frames.len() > 0 && frames.last().locals.view_map().contains_key(name) {
            Some(frames.last().locals.view_map()[name])
        } else {
            self.variable_manager.lookup(name)
        }
    }

    /// A fresh interpreter: no variable, function, frame or `try` block, at
    /// line 1, with frames in use.
    pub fn new() -> (r: Self)
        ensures
            r.wf(),
            r.variable_manager.globals() == Map::<Seq<char>, ValueView>::empty(),
            r.variable_manager.calls() == Seq::<Map<Seq<char>, ValueView>>::empty(),
            r.variable_manager.loops() == Seq::<Map<Seq<char>, ValueView>>::empty(),
            r.function_manager.view_map() == Map::<Seq<char>, UserFunction>::empty(),
            r.return_value is None,
            !r.break_requested,
            !r.continue_requested,
            r.active_loop_count == 0,
            r.current_line == 1,
            r.exception_stack@ == Seq::<TryBlock>::empty(),
            r.recursion_depth == 0,
            r.call_stack.frames() == Seq::<CallFrame>::empty(),
            r.call_stack.limit() == MAX_CALL_STACK_DEPTH,
            r.use_call_frame_engine,
    {
        Interpreter {
            variable_manager: VariableManager::new(),
            function_manager: UserFunctionManager::new(),
            return_value: None,
            break_requested: false,
            continue_requested: false,
            active_loop_count: 0,
            current_line: 1,
            exception_stack: Vec::new(),
            recursion_depth: 0,
            call_stack: CallStack::new(MAX_CALL_STACK_DEPTH),
            use_call_frame_engine: true,
        }
    }

    /// The value of a variable (see `lookup`).
    pub fn get_variable(&self, name: &str) -> (r: Option<&Value>)
        requires
            self.wf(),
        ensures
            match r {
                Some(v) => self.lookup(name@) == Some(v@),
                None => self.lookup(name@) is None,
            },
    {
        if self.use_call_frame_engine {
            match self.call_stack.last() {
                Some(frame) => {
                    proof {
                        let k = self.call_stack.frames().len() - 1;
                        assert(self.call_stack.frames()[k].locals.wf());
                    }
                    match frame.get_local(name) {
                        Some(v) => return Some(v),
                        None => {},
                    }
                },
                None => {},
            }
        }
        self.variable_manager.get_variable(name)
    }

    /// Sets a variable (see `VariableManager::set_variable`); nothing else
    /// changes.
    pub fn set_variable(&mut self, name: String, value: Value, is_global: bool)
        requires
            old(self).wf(),
        ensures
            final(self).wf(),
            *final(self) == (Interpreter { variable_manager: final(self).variable_manager, ..*old(self) }),
            final(self).variable_manager.loops() == old(self).variable_manager.loops(),
            if is_global || old(self).variable_manager.calls().len() == 0 {
                &&& final(self).variable_manager.globals() == old(self).variable_manager.globals().insert(name@, value@)
                &&& final(self).variable_manager.calls() == old(self).variable_manager.calls()
            } else {
                &&& final(self).variable_manager.globals() == old(self).variable_manager.globals()
                &&& final(self).variable_manager.calls() == old(self).variable_manager.calls().update(
                    old(self).variable_manager.calls().len() - 1,
                    old(self).variable_manager.calls().last().insert(name@, value@),
                )
            },
    {
        self.variable_manager.set_variable(name, value, is_global);
    }

    /// The global variables.
    pub fn get_all_variables(&self) -> (r: &Scope)
        requires
            self.wf(),
        ensures
            r.wf(),
            r.view_map() == self.variable_manager.globals(),
    {
        self.variable_manager.get_all_global_variables()
    }

    /// Sets a variable in the innermost loop scope (see
    /// `VariableManager::set_loop_variable`); nothing else changes.
    pub fn set_loop_variable(&mut self, name: String, value: Value)
        requires
            old(self).wf(),
        ensures
            final(self).wf(),
            *final(self) == (Interpreter { variable_manager: final(self).variable_manager, ..*old(self) }),
            final(self).variable_manager.globals() == old(self).variable_manager.globals(),
            final(self).variable_manager.calls() == old(self).variable_manager.calls(),
            final(self).variable_manager.loops() == if old(self).variable_manager.loops().len() == 0 {
                old(self).variable_manager.loops()
            } else {
                old(self).variable_manager.loops().update(
                    old(self).variable_manager.loops().len() - 1,
                    old(self).variable_manager.loops().last().insert(name@, value@),
                )
            },
    {
        self.variable_manager.set_loop_variable(name, value);
    }

    /// Defines a user function from its parts; always succeeds.
    pub fn define_function(&mut self, name: String, parameters: Vec<String>, body: Vec<String>, is_global: bool)
        -> (r: Result<(), DataCodeError>)
        requires
            old(self).wf(),
        ensures
            r is Ok,
            final(self).wf(),
            *final(self) == (Interpreter { function_manager: final(self).function_manager, ..*old(self) }),
            final(self).function_manager.view_map().dom() == old(self).function_manager.view_map().dom().insert(name@),
            final(self).function_manager.view_map()[name@].name@ == name@,
            final(self).function_manager.view_map()[name@].parameters@ == parameters@,
            final(self).function_manager.view_map()[name@].body@ == body@,
            final(self).function_manager.view_map()[name@].is_global == is_global,
            forall|k: Seq<char>| k != name@ && old(self).function_manager.view_map().contains_key(k)
                ==> final(self).function_manager.view_map()[k] == old(self).function_manager.view_map()[k],
    {
        let function = UserFunction::new(name, parameters, body, is_global);
        self.function_manager.add_function(function);
        Ok(())
    }

    /// Adds a user function under its name, replacing any of that name.
    pub fn add_user_function(&mut self, function: UserFunction)
        requires
            old(self).wf(),
        ensures
            final(self).wf(),
            *final(self) == (Interpreter { function_manager: final(self).function_manager, ..*old(self) }),
            final(self).function_manager.view_map() == old(self).function_manager.view_map().insert(function.name@, function),
    {
        self.function_manager.add_function(function);
    }

    /// Whether a user function of that name is defined.
    pub fn has_user_function(&self, name: &str) -> (r: bool)
        requires
            self.wf(),
        ensures
            r == self.function_manager.view_map().contains_key(name@),
    {
        self.function_manager.contains_function(name)
    }

    /// Opens a loop scope; nothing else changes.
    pub fn enter_loop_scope(&mut self)
        requires
            old(self).wf(),
        ensures
            final(self).wf(),
            *final(self) == (Interpreter { variable_manager: final(self).variable_manager, ..*old(self) }),
            final(self).variable_manager.globals() == old(self).variable_manager.globals(),
            final(self).variable_manager.calls() == old(self).variable_manager.calls(),
            final(self).variable_manager.loops() == old(self).variable_manager.loops().push(Map::empty()),
    {
        self.variable_manager.enter_loop_scope();
    }

    /// Closes the innermost loop scope, if there is one; nothing else changes.
    pub fn exit_loop_scope(&mut self)
        requires
            old(self).wf(),
        ensures
            final(self).wf(),
            *final(self) == (Interpreter { variable_manager: final(self).variable_manager, ..*old(self) }),
            final(self).variable_manager.globals() == old(self).variable_manager.globals(),
            final(self).variable_manager.calls() == old(self).variable_manager.calls(),
            final(self).variable_manager.loops() == if old(self).variable_manager.loops().len() == 0 {
                old(self).variable_manager.loops()
            } else {
                old(self).variable_manager.loops().drop_last()
            },
    {
        self.variable_manager.exit_loop_scope();
    }

    /// Forgets variables, functions, the return value, the `break` request,
    /// the loop count, the `try` blocks, the depth and the frames, and goes
    /// back to line 1. The `continue` request and the use of frames stay.
    pub fn clear(&mut self)
        requires
            old(self).wf(),
        ensures
            final(self).wf(),
            final(self).variable_manager.globals() == Map::<Seq<char>, ValueView>::empty(),
            final(self).variable_manager.calls() == Seq::<Map<Seq<char>, ValueView>>::empty(),
            final(self).variable_manager.loops() == Seq::<Map<Seq<char>, ValueView>>::empty(),
            final(self).function_manager.view_map() == Map::<Seq<char>, UserFunction>::empty(),
            final(self).return_value is None,
            !final(self).break_requested,
            final(self).continue_requested == old(self).continue_requested,
            final(self).active_loop_count == 0,
            final(self).current_line == 1,
            final(self).exception_stack@ == Seq::<TryBlock>::empty(),
            final(self).recursion_depth == 0,
            final(self).call_stack.frames() == Seq::<CallFrame>::empty(),
            final(self).call_stack.limit() == MAX_CALL_STACK_DEPTH,
            final(self).use_call_frame_engine == old(self).use_call_frame_engine,
    {
        self.variable_manager.clear();
        self.function_manager.clear();
        self.return_value = None;
        self.break_requested = false;
        self.active_loop_count = 0;
        self.current_line = 1;
        self.exception_stack.clear();
        self.recursion_depth = 0;
        self.call_stack = CallStack::new(MAX_CALL_STACK_DEPTH);
    }

    /// Pushes a `try` block on the exception stack; nothing else changes.
    pub fn push_try_block(&mut self, try_block: TryBlock)
        ensures
            *final(self) == (Interpreter { exception_stack: final(self).exception_stack, ..*old(self) }),
            final(self).exception_stack@ == old(self).exception_stack@.push(try_block),
    {
        self.exception_stack.push(try_block);
    }

    /// Pops the innermost `try` block, if there is one; nothing else changes.
    pub fn pop_try_block(&mut self) -> (r: Option<TryBlock>)
        ensures
            *final(self) == (Interpreter { exception_stack: final(self).exception_stack, ..*old(self) }),
            if old(self).exception_stack@.len() == 0 {
                r is None && final(self).exception_stack@ == old(self).exception_stack@
            } else {
                r == Some(old(self).exception_stack@.last())
                    && final(self).exception_stack@ == old(self).exception_stack@.drop_last()
            },
    {
        self.exception_stack.pop()
    }

    /// The index of the innermost `try` block that can handle an error (see
    /// `handler_index`).
    pub fn find_exception_handler(&self) -> (r: Option<usize>)
        ensures
            match r {
                Some(i) => handler_index(self.exception_stack@) == Some(i as int),
                None => handler_index(self.exception_stack@) is None,
            },
    {
        let ghost s = self.exception_stack@;
        let mut i = self.exception_stack.len();
        proof { assert(s.take(i as int) =~= s); }
        while i > 0
            invariant
                i <= s.len(),
                s == self.exception_stack@,
                handler_index(s.take(i as int)) == handler_index(s),
            decreases i,
        {
            proof {
                assert(s.take(i as int).drop_last() =~= s.take(i - 1));
                assert(s.take(i as int).last() == s[i - 1]);
            }
            if self.exception_stack[i - 1].can_handle_exception() {
                return Some(i - 1);
            }
            i = i - 1;
        }
        proof { assert(s.take(0) =~= Seq::<TryBlock>::empty()); }
        None
    }

    /// The number of `try` blocks on the exception stack.
    pub fn get_try_nesting_level(&self) -> (r: usize)
        ensures
            r == self.exception_stack@.len(),
    {
        self.exception_stack.len()
    }

    /// Deactivates the `try` blocks from index `until_index` on; the others,
    /// and everything else, stay.
    pub fn deactivate_try_blocks_until(&mut self, until_index: usize)
        ensures
            *final(self) == (Interpreter { exception_stack: final(self).exception_stack, ..*old(self) }),
            final(self).exception_stack@.len() == old(self).exception_stack@.len(),
            forall|i: int| 0 <= i < old(self).exception_stack@.len() ==> {
                let (a, b) = (#[trigger] final(self).exception_stack@[i], old(self).exception_stack@[i]);
                if i >= until_index {
                    a == TryBlock { is_active: false, ..b }
                } else {
                    a == b
                }
            },
    {
        let n = self.exception_stack.len();
        let mut i = until_index;
        while i < n
            invariant
                until_index <= i,
                n == old(self).exception_stack@.len(),
                *self == (Interpreter { exception_stack: self.exception_stack, ..*old(self) }),
                self.exception_stack@.len() == n,
                forall|j: int| 0 <= j < n ==> {
                    let (a, b) = (#[trigger] self.exception_stack@[j], old(self).exception_stack@[j]);
                    if until_index <= j < i {
                        a == TryBlock { is_active: false, ..b }
                    } else {
                        a == b
                    }
                },
            decreases n - i,
        {
            let ghost before = self.exception_stack@;
            let mut block = self.exception_stack.remove(i);
            block.deactivate();
            self.exception_stack.insert(i, block);
            proof {
                assert(self.exception_stack@ =~= before.update(i as int, block));
                assert(block == TryBlock { is_active: false, ..old(self).exception_stack@[i as int] });
            }
            i = i + 1;
        }
    }

    /// The id for the next `try` block: one more than the number of blocks.
    pub fn get_next_try_block_id(&self) -> (r: usize)
        requires
            self.exception_stack@.len() < usize::MAX,
        ensures
            r == self.exception_stack@.len() + 1,
    {
        self.exception_stack.len() + 1
    }

    /// Opens a `try` statement: pushes its block (its `catch` variable and
    /// body, its `finally` body when that has lines, the next identifier,
    /// and the number of blocks open as its nesting level) and opens a scope
    /// for its variables; gives back the lines of its `try` part.
    pub fn begin_try(&mut self, parts: TryStatementParts) -> (r: Vec<String>)
        requires
            old(self).wf(),
            old(self).exception_stack@.len() < usize::MAX,
        ensures
            final(self).wf(),
            r == parts.try_body,
            final(self).exception_stack@ == old(self).exception_stack@.push(
                (TryBlock {
                    catch_var: parts.catch_var,
                    catch_body: parts.catch_body,
                    finally_body: if parts.finally_body.len() == 0 { None } else { Some(parts.finally_body) },
                    block_id: (old(self).exception_stack@.len() + 1) as usize,
                    nesting_level: old(self).exception_stack@.len() as usize,
                    is_active: true,
                }),
            ),
            final(self).variable_manager.globals() == old(self).variable_manager.globals(),
            final(self).variable_manager.calls() == old(self).variable_manager.calls(),
            final(self).variable_manager.loops() == old(self).variable_manager.loops().push(Map::empty()),
            *final(self) == (Interpreter {
                variable_manager: final(self).variable_manager,
                exception_stack: final(self).exception_stack,
                ..*old(self)
            }),
    {
        let block_id = self.get_next_try_block_id();
        let nesting_level = self.get_try_nesting_level();
        let finally_body = if parts.finally_body.len() == 0 { None } else { Some(parts.finally_body) };
        let block = TryBlock::new(parts.catch_var, parts.catch_body, finally_body, block_id, nesting_level);
        self.push_try_block(block);
        self.enter_loop_scope();
        parts.try_body
    }

    /// Opens a function scope, one deeper; a runtime error at the current
    /// line, changing nothing, when the depth is already
    /// `MAX_RECURSION_DEPTH`.
    pub fn enter_function_scope(&mut self) -> (r: Result<(), DataCodeError>)
        requires
            old(self).wf(),
        ensures
            final(self).wf(),
            if old(self).recursion_depth >= MAX_RECURSION_DEPTH {
                &&& r matches Err(DataCodeError::RuntimeError { message, line })
                    && message@ == "Превышена максимальная глубина рекурсии (1000)"@
                    && line == old(self).current_line
                &&& *final(self) == *old(self)
            } else {
                &&& r is Ok
                &&& *final(self) == (Interpreter {
                    variable_manager: final(self).variable_manager,
                    recursion_depth: final(self).recursion_depth,
                    ..*old(self)
                })
                &&& final(self).recursion_depth == old(self).recursion_depth + 1
                &&& final(self).variable_manager.globals() == old(self).variable_manager.globals()
                &&& final(self).variable_manager.calls() == old(self).variable_manager.calls().push(Map::empty())
                &&& final(self).variable_manager.loops() == old(self).variable_manager.loops()
            },
    {
        if self.recursion_depth >= MAX_RECURSION_DEPTH {
            return Err(DataCodeError::runtime_error(
                owned("Превышена максимальная глубина рекурсии (1000)"),
                self.current_line,
            ));
        }
        self.recursion_depth = self.recursion_depth + 1;
        self.variable_manager.enter_function_scope();
        Ok(())
    }

    /// Closes the innermost function scope: one shallower (not below zero).
    pub fn exit_function_scope(&mut self)
        requires
            old(self).wf(),
        ensures
            final(self).wf(),
            *final(self) == (Interpreter {
                variable_manager: final(self).variable_manager,
                recursion_depth: final(self).recursion_depth,
                ..*old(self)
            }),
            final(self).recursion_depth == if old(self).recursion_depth > 0 { old(self).recursion_depth - 1 } else { 0 },
            final(self).variable_manager.globals() == old(self).variable_manager.globals(),
            final(self).variable_manager.calls() == if old(self).variable_manager.calls().len() == 0 {
                old(self).variable_manager.calls()
            } else {
                old(self).variable_manager.calls().drop_last()
            },
            final(self).variable_manager.loops() == old(self).variable_manager.loops(),
    {
        if self.recursion_depth > 0 {
            self.recursion_depth = self.recursion_depth - 1;
        }
        self.variable_manager.exit_function_scope();
    }

    /// Whether a function scope is open by depth.
    pub fn is_in_function(&self) -> (r: bool)
        ensures
            r == (self.recursion_depth > 0),
    {
        self.recursion_depth > 0
    }

    /// The depth of function scopes.
    pub fn get_recursion_depth(&self) -> (r: usize)
        ensures
            r == self.recursion_depth,
    {
        self.recursion_depth
    }

    /// A `return` may stand here: a function scope or a call frame is open.
    pub open spec fn inside_function(&self) -> bool {
        self.variable_manager.calls().len() > 0 || self.call_stack.frames().len() > 0
    }

    /// What running `code` on its own does here, with errors at the current
    /// line (see `simple_line`).
    pub fn line_statement(&self, code: &str) -> (r: Result<LineStatement, DataCodeError>)
        requires
            code@.len() < 0x7fff_ffff,
        ensures
            match simple_line(code@, self.inside_function()) {
                Ok(v) => r matches Ok(s) && s@ == v,
                Err(m) => syntax_error_with(r, m, self.current_line),
            },
    {
        let inside = self.variable_manager.is_in_function() || !self.call_stack.is_empty();
        simple_line_statement(code, inside, self.current_line)
    }

    /// What running `code` inside a block does here, with errors at the
    /// current line (see `block_line`): a loop is open when a loop is
    /// active, and a `return` is left to the frames when frames are in use
    /// and one is open.
    pub fn block_line_statement(&self, code: &str) -> (r: Result<LineStatement, DataCodeError>)
        requires
            code@.len() < 0x7fff_ffff,
        ensures
            match block_line(
                code@,
                self.inside_function(),
                self.active_loop_count > 0,
                self.use_call_frame_engine && self.call_stack.frames().len() > 0,
            ) {
                Ok(v) => r matches Ok(s) && s@ == v,
                Err(m) => syntax_error_with(r, m, self.current_line),
            },
    {
        let inside = self.variable_manager.is_in_function() || !self.call_stack.is_empty();
        let frames_return = self.use_call_frame_engine && !self.call_stack.is_empty();
        block_line_statement(code, inside, self.active_loop_count > 0, frames_return, self.current_line)
    }
}

/// Entering a function scope and then leaving it gives back the depth and
/// the variables' scopes as they were, when the depth was below the limit.
pub proof fn law_function_scope_round_trip(before: Interpreter, entered: Interpreter, left: Interpreter)
    requires
        before.wf(),
        before.recursion_depth < MAX_RECURSION_DEPTH,
        entered.recursion_depth == before.recursion_depth + 1,
        entered.variable_manager.globals() == before.variable_manager.globals(),
        entered.variable_manager.calls() == before.variable_manager.calls().push(Map::empty()),
        entered.variable_manager.loops() == before.variable_manager.loops(),
        left.recursion_depth == if entered.recursion_depth > 0 { entered.recursion_depth - 1 } else { 0 },
        left.variable_manager.globals() == entered.variable_manager.globals(),
        left.variable_manager.calls() == if entered.variable_manager.calls().len() == 0 {
            entered.variable_manager.calls()
        } else {
            entered.variable_manager.calls().drop_last()
        },
        left.variable_manager.loops() == entered.variable_manager.loops(),
    ensures
        left.recursion_depth == before.recursion_depth,
        left.variable_manager.globals() == before.variable_manager.globals(),
        left.variable_manager.calls() == before.variable_manager.calls(),
        left.variable_manager.loops() == before.variable_manager.loops(),
{
    assert(before.variable_manager.calls().push(Map::empty()).drop_last() =~= before.variable_manager.calls());
}

/// The handler found is a block that can handle an error, and no block
/// nested inside it can.
pub proof fn law_handler_is_innermost(stack: Seq<TryBlock>)
    ensures
        match handler_index(stack) {
            Some(i) => 0 <= i < stack.len() && stack[i].is_active && stack[i].catch_body.len() > 0
                && forall|j: int| i < j < stack.len() ==> !(#[trigger] stack[j].is_active && stack[j].catch_body.len() > 0),
            None => forall|j: int| 0 <= j < stack.len() ==> !(#[trigger] stack[j].is_active && stack[j].catch_body.len() > 0),
        },
    decreases stack.len(),
{
    if stack.len() > 0 && !(stack.last().is_active && stack.last().catch_body.len() > 0) {
        let rest = stack.drop_last();
        law_handler_is_innermost(rest);
        match handler_index(rest) {
            Some(i) => {
                assert(stack[i] == rest[i]);
                assert forall|j: int| i < j < stack.len() implies !(#[trigger] stack[j].is_active
                    && stack[j].catch_body.len() > 0) by {
                    if j < rest.len() {
                        assert(rest[j] == stack[j]);
                    }
                }
            },
            None => {
                assert forall|j: int| 0 <= j < stack.len() implies !(#[trigger] stack[j].is_active
                    && stack[j].catch_body.len() > 0) by {
                    if j < rest.len() {
                        assert(rest[j] == stack[j]);
                    }
                }
            },
        }
    }
}

} // verus!
