//! Call frames and the call stack that runs user functions without
//! recursion in the host.
use vstd::prelude::*;
use crate::value::{Value, ValueView, value_list, lemma_value_list};
use crate::error::DataCodeError;
use crate::interpreter::variables::Scope;
use crate::text::{owned, push_string, decimal, decimal_string};

verus! {

/// The name of a function.
pub type FunctionId = String;

/// The name of a temporary variable that receives a call's result.
pub type TempVarId = String;

/// What running one instruction asks for next.
#[derive(Debug)]
pub enum ExecResult {
    /// Go on with the next instruction.
    Continue,
    /// The function is done, with this value.
    Return(Value),
    /// Call a function in a new frame.
    Call { function_id: FunctionId, args: Vec<Value> },
    /// Call a function in place of the current frame.
    TailCall { function_id: FunctionId, args: Vec<Value> },
}

/// What evaluating an expression or instruction gives.
#[derive(Debug)]
pub enum ExecSignal {
    /// The value is ready.
    Value(Value),
    /// A function is to be called in a new frame.
    Call { function_id: FunctionId, args: Vec<Value>, return_slot: Option<TempVarId> },
    /// The function is done, with this value.
    Return(Value),
}

/// The frame of one call of a function.
#[derive(Debug)]
pub struct CallFrame {
    pub function_id: FunctionId,
    /// The index of the current instruction in the function's body.
    pub ip: usize,
    pub locals: Scope,
    pub args: Vec<Value>,
    pub return_slot: Option<TempVarId>,
    pub depth: usize,
}

impl CallFrame {
    /// A frame at the first instruction, with no locals.
    pub fn new(function_id: FunctionId, args: Vec<Value>, return_slot: Option<TempVarId>, depth: usize) -> (r: Self)
        ensures
            r.function_id == function_id,
            r.ip == 0,
            r.locals.wf(),
            r.locals.view_map() == Map::<Seq<char>, ValueView>::empty(),
            r.args == args,
            r.return_slot == return_slot,
            r.depth == depth,
    {
        CallFrame { function_id, ip: 0, locals: Scope::new(), args, return_slot, depth }
    }

    /// Whether the instructions of a body of `body_len` lines are all run.
    pub fn is_done(&self, body_len: usize) -> (r: bool)
        ensures
            r == (self.ip >= body_len),
    {
        self.ip >= body_len
    }

    /// The current instruction of the body, if the frame is not done.
    pub fn current_instruction<'a>(&self, body: &'a [String]) -> (r: Option<&'a String>)
        ensures
            match r {
                Some(line) => self.ip < body@.len() && *line == body@[self.ip as int],
                None => self.ip >= body@.len(),
            },
    {
        if self.ip < body.len() {
            Some(&body[self.ip])
        } else {
            None
        }
    }

    /// Moves to the next instruction.
    pub fn advance(&mut self)
        requires
            old(self).ip < usize::MAX,
        ensures
            *final(self) == (CallFrame { ip: (old(self).ip + 1) as usize, ..*old(self) }),
    {
        self.ip = self.ip + 1;
    }

    /// Sets a local variable.
    pub fn set_local(&mut self, name: String, value: Value)
        requires
            old(self).locals.wf(),
        ensures
            final(self).locals.wf(),
            final(self).locals.view_map() == old(self).locals.view_map().insert(name@, value@),
            final(self).function_id == old(self).function_id,
            final(self).ip == old(self).ip,
            final(self).args == old(self).args,
            final(self).return_slot == old(self).return_slot,
            final(self).depth == old(self).depth,
    {
        self.locals.insert(name, value);
    }

    /// The value of a local variable, if it is set.
    pub fn get_local(&self, name: &str) -> (r: Option<&Value>)
        requires
            self.locals.wf(),
        ensures
            match r {
                Some(v) => self.locals.view_map().contains_key(name@) && v@ == self.locals.view_map()[name@],
                None => !self.locals.view_map().contains_key(name@),
            },
    {
        self.locals.get(name)
    }
}

/// The text of a number as printed and in stack traces: a whole number as
/// an integer, any other as it displays. Numbers are floating point, which
/// this library does not hold; an implementation of this trait writes them.
pub trait NumberText {
    fn display_text(&self, a: &str) -> String;
}

/// `t` is the text of a value in a stack trace: a string in double quotes,
/// `true`, `false` or `null`; a number as the `NumberText` writes it; a
/// list of more than three elements as `[n items]`, a shorter one as its
/// elements' texts between `[` and `]`, separated by `, `.
pub open spec fn trace_arg(v: ValueView, t: Seq<char>) -> bool
    decreases v,
{
    match v {
        ValueView::Number(_) => true,
        ValueView::String(s) => t == "\""@ + s + "\""@,
        ValueView::Bool(b) => t == if b { "true"@ } else { "false"@ },
        ValueView::Null => t == "null"@,
        ValueView::Array(vs) => if vs.len() > 3 {
            t == "["@ + decimal(vs.len()) + " items]"@
        } else {
            exists|ts: Seq<Seq<char>>|
                #![trigger comma_joined(ts)]
                ts.len() == vs.len() && (forall|i: int| 0 <= i < vs.len() ==> trace_arg(vs[i], #[trigger] ts[i])) && t
                    == "["@ + comma_joined(ts) + "]"@
        },
    }
}

/// The text of a list in a stack trace: up to three elements between
/// brackets, separated by commas; a longer list as `[n items]`.
fn array_trace_text<N: NumberText>(v: &Vec<Value>, numbers: &N) -> (r: String)
    ensures
        trace_arg(ValueView::Array(value_list(v@)), r@),
    decreases v,
{
    proof { lemma_value_list(v@); }
    if v.len() > 3 {
        let mut r = owned("[");
        push_string(&mut r, decimal_string(v.len() as u64).as_str());
        push_string(&mut r, " items]");
        return r;
    }
    let ghost xs = value_list(v@);
    let mut r = owned("[");
    let ghost mut ts: Seq<Seq<char>> = Seq::empty();
    let mut i: usize = 0;
    while i < v.len()
        invariant
            i <= v@.len(),
            v@.len() <= 3,
            xs == value_list(v@),
            xs.len() == v@.len(),
            forall|j: int| 0 <= j < v@.len() ==> #[trigger] xs[j] == v@[j]@,
            ts.len() == i,
            forall|j: int| 0 <= j < i ==> trace_arg(xs[j], #[trigger] ts[j]),
            r@ == "["@ + comma_joined(ts),
        decreases v.len() - i,
    {
        if i > 0 {
            push_string(&mut r, ", ");
        }
        let t = arg_trace_text(&v[i], numbers);
        push_string(&mut r, t.as_str());
        proof {
            let ts2 = ts.push(t@);
            assert(ts2.drop_last() =~= ts);
            assert(r@ =~= "["@ + comma_joined(ts2));
            ts = ts2;
        }
        i = i + 1;
    }
    push_string(&mut r, "]");
    proof {
        assert(r@ =~= "["@ + comma_joined(ts) + "]"@);
    }
    r
}

/// The text of a value in a stack trace (see `trace_arg`).
fn arg_trace_text<N: NumberText>(value: &Value, numbers: &N) -> (r: String)
    ensures
        trace_arg(value@, r@),
    decreases value,
{
    match value {
        Value::Number(t) => numbers.display_text(t.as_str()),
        Value::String(s) => {
            let mut q = owned("\"");
            push_string(&mut q, s.as_str());
            push_string(&mut q, "\"");
            q
        },
        Value::Bool(b) => if *b { owned("true") } else { owned("false") },
        Value::Null => owned("null"),
        Value::Array(w) => array_trace_text(w, numbers),
    }
}

/// Texts joined with a comma and a space.
pub open spec fn comma_joined(ts: Seq<Seq<char>>) -> Seq<char>
    decreases ts.len(),
{
    if ts.len() == 0 {
        Seq::empty()
    } else if ts.len() == 1 {
        ts[0]
    } else {
        comma_joined(ts.drop_last()) + ", "@ + ts.last()
    }
}

/// `t` is the line of a frame in a stack trace: the function's name and its
/// arguments in parentheses.
pub open spec fn trace_line(f: CallFrame, t: Seq<char>) -> bool {
    exists|ts: Seq<Seq<char>>| #![trigger comma_joined(ts)]
        ts.len() == f.args@.len()
        && (forall|j: int| 0 <= j < ts.len() ==> trace_arg(f.args@[j]@, #[trigger] ts[j]))
        && t == f.function_id@ + "("@ + comma_joined(ts) + ")"@
}

/// The message when a call would go deeper than the stack allows.
pub open spec fn depth_message(max_depth: usize, function_id: Seq<char>) -> Seq<char> {
    "Превышена максимальная глубина стека вызовов ("@ + decimal(max_depth as nat) + ") в функции '"@
        + function_id + "'"@
}

/// The stack of call frames, at most `max_depth` deep.
#[derive(Debug)]
pub struct CallStack {
    frames: Vec<CallFrame>,
    max_depth: usize,
}

impl CallStack {
    /// The frames, outermost first.
    pub closed spec fn frames(&self) -> Seq<CallFrame> {
        self.frames@
    }

    /// The greatest number of frames.
    pub closed spec fn limit(&self) -> nat {
        self.max_depth as nat
    }

    /// An empty stack of at most `max_depth` frames.
    pub fn new(max_depth: usize) -> (r: Self)
        ensures
            r.frames() == Seq::<CallFrame>::empty(),
            r.limit() == max_depth,
    {
        CallStack { frames: Vec::new(), max_depth }
    }

    /// Pushes a frame; fails, changing nothing, when the stack is full.
    pub fn push(&mut self, frame: CallFrame) -> (r: Result<(), DataCodeError>)
        ensures
            final(self).limit() == old(self).limit(),
            if old(self).frames().len() >= old(self).limit() {
                &&& r matches Err(DataCodeError::RuntimeError { message, line })
                    && message@ == depth_message(old(self).limit() as usize, frame.function_id@) && line == 0
                &&& final(self).frames() == old(self).frames()
            } else {
                &&& r is Ok
                &&& final(self).frames() == old(self).frames().push(frame)
            },
    {
        if self.frames.len() >= self.max_depth {
            let mut m = owned("Превышена максимальная глубина стека вызовов (");
            push_string(&mut m, decimal_string(self.max_depth as u64).as_str());
            push_string(&mut m, ") в функции '");
            push_string(&mut m, frame.function_id.as_str());
            push_string(&mut m, "'");
            return Err(DataCodeError::runtime_error(m, 0));
        }
        self.frames.push(frame);
        Ok(())
    }

    /// Takes the innermost frame off, if there is one.
    pub fn pop(&mut self) -> (r: Option<CallFrame>)
        ensures
            final(self).limit() == old(self).limit(),
            if old(self).frames().len() == 0 {
                r is None && final(self).frames() == old(self).frames()
            } else {
                r == Some(old(self).frames().last()) && final(self).frames() == old(self).frames().drop_last()
            },
    {
        self.frames.pop()
    }

    /// The innermost frame, to be changed in place.
    pub fn last_mut(&mut self) -> (r: Option<&mut CallFrame>)
        ensures
            final(self).limit() == old(self).limit(),
            match r {
                Some(f) => old(self).frames().len() > 0 && *f == old(self).frames().last()
                    && final(self).frames() == old(self).frames().update(old(self).frames().len() - 1, *final(f)),
                None => old(self).frames().len() == 0 && final(self).frames() == old(self).frames(),
            },
    {
        let n = self.frames.len();
        if n == 0 {
            None
        } else {
            Some(&mut self.frames[n - 1])
        }
    }

    /// The innermost frame, if there is one.
    pub fn last(&self) -> (r: Option<&CallFrame>)
        ensures
            match r {
                Some(f) => self.frames().len() > 0 && *f == self.frames().last(),
                None => self.frames().len() == 0,
            },
    {
        let n = self.frames.len();
        if n == 0 {
            None
        } else {
            Some(&self.frames[n - 1])
        }
    }

    /// The number of frames.
    pub fn len(&self) -> (r: usize)
        ensures
            r == self.frames().len(),
    {
        self.frames.len()
    }

    /// Whether there is no frame.
    pub fn is_empty(&self) -> (r: bool)
        ensures
            r == (self.frames().len() == 0),
    {
        self.frames.len() == 0
    }

    /// The stack trace: one line per frame, innermost first (see
    /// `trace_line`); numbers are written by `numbers`.
    pub fn get_stack_trace<N: NumberText>(&self, numbers: &N) -> (r: Vec<String>)
        ensures
            r@.len() == self.frames().len(),
            forall|i: int| 0 <= i < r@.len() ==> trace_line(self.frames()[self.frames().len() - 1 - i], #[trigger] r@[i]@),
    {
        let n = self.frames.len();
        let mut lines: Vec<String> = Vec::new();
        let mut k: usize = 0;
        while k < n
            invariant
                n == self.frames@.len(),
                k <= n,
                lines@.len() == k,
                forall|i: int| 0 <= i < k ==> trace_line(self.frames@[n - 1 - i], #[trigger] lines@[i]@),
            decreases n - k,
        {
            let frame = &self.frames[n - 1 - k];
            let mut line = frame.function_id.clone();
            push_string(&mut line, "(");
            let ghost head = line@;
            let ghost mut ts: Seq<Seq<char>> = Seq::empty();
            let mut j: usize = 0;
            while j < frame.args.len()
                invariant
                    j <= frame.args@.len(),
                    ts.len() == j,
                    forall|m: int| 0 <= m < j ==> trace_arg(frame.args@[m]@, #[trigger] ts[m]),
                    line@ == head + comma_joined(ts),
                decreases frame.args.len() - j,
            {
                let text = arg_trace_text(&frame.args[j], numbers);
                let ghost before = line@;
                if j > 0 {
                    push_string(&mut line, ", ");
                }
                push_string(&mut line, text.as_str());
                proof {
                    let ts2 = ts.push(text@);
                    assert(ts2.drop_last() =~= ts);
                    if j == 0 {
                        assert(ts =~= Seq::<Seq<char>>::empty());
                        assert(comma_joined(ts2) == ts2[0]);
                        assert(line@ =~= head + comma_joined(ts2));
                    } else {
                        assert(line@ =~= head + comma_joined(ts2));
                    }
                    ts = ts2;
                }
                j = j + 1;
            }
            push_string(&mut line, ")");
            proof {
                assert(trace_line(*frame, line@));
            }
            lines.push(line);
            k = k + 1;
        }
        lines
    }

    /// Puts a frame in place of the innermost one, keeping that one's depth;
    /// fails, changing nothing, on an empty stack.
    pub fn replace_top(&mut self, frame: CallFrame) -> (r: Result<(), DataCodeError>)
        ensures
            final(self).limit() == old(self).limit(),
            if old(self).frames().len() == 0 {
                &&& r matches Err(DataCodeError::RuntimeError { message, line })
                    && message@ == "Cannot replace frame: stack is empty"@ && line == 0
                &&& final(self).frames() == old(self).frames()
            } else {
                &&& r is Ok
                &&& final(self).frames() == old(self).frames().update(old(self).frames().len() - 1,
                    CallFrame { depth: old(self).frames().last().depth, ..frame })
            },
    {
        let n = self.frames.len();
        if n == 0 {
            return Err(DataCodeError::runtime_error(owned("Cannot replace frame: stack is empty"), 0));
        }
        let depth = self.frames[n - 1].depth;
        let mut new_frame = frame;
        new_frame.depth = depth;
        let _ = self.frames.pop();
        self.frames.push(new_frame);
        assert(self.frames@ =~= old(self).frames@.update(n - 1, new_frame));
        Ok(())
    }
}

/// A stack never holds more frames than its limit: a push below the limit
/// adds one frame, and at the limit it fails and changes nothing.
pub proof fn law_stack_stays_within_limit(frames: Seq<CallFrame>, limit: nat, f: CallFrame)
    requires
        frames.len() <= limit,
    ensures
        frames.len() < limit ==> frames.push(f).len() <= limit,
        frames.len() >= limit ==> frames.len() == limit,
{
}

/// Replacing the innermost frame keeps the number of frames and the depth
/// of the innermost one.
pub proof fn law_replace_keeps_depth(frames: Seq<CallFrame>, f: CallFrame)
    requires
        frames.len() > 0,
    ensures
        frames.update(frames.len() - 1, CallFrame { depth: frames.last().depth, ..f }).len() == frames.len(),
        frames.update(frames.len() - 1, CallFrame { depth: frames.last().depth, ..f }).last().depth
            == frames.last().depth,
{
}

} // verus!
