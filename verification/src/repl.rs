//! The decisions of the interactive shell: which lines are commands, which
//! open or close a block that spans several lines, and what is to be run.
use vstd::prelude::*;
use crate::text::{chars_of, starts_with, ends_with, trim, trimmed, string_of, push_string, str_eq};
use crate::interpreter::execution::{find_from, find_pattern};

verus! {

/// `p` starts `s`.
pub open spec fn has_prefix(s: Seq<char>, p: Seq<char>) -> bool {
    p.len() <= s.len() && s.subrange(0, p.len() as int) == p
}

/// `p` ends `s`.
pub open spec fn has_suffix(s: Seq<char>, p: Seq<char>) -> bool {
    p.len() <= s.len() && s.subrange(s.len() - p.len(), s.len() as int) == p
}

/// The kinds of blocks that span several lines.
#[derive(Debug, Clone, Copy, PartialEq, Eq, Structural)]
pub enum MultilineType {
    ForLoop,
    IfStatement,
    Function,
}

/// The commands of the shell itself.
#[derive(Debug, Clone, Copy, PartialEq, Eq, Structural)]
pub enum SpecialCommand {
    Exit,
    Help,
    Clear,
    Vars,
    Reset,
}

/// What the shell is to do after a line.
#[derive(Debug)]
pub enum ReplAction {
    /// Nothing yet: an empty line, or a line of an unfinished block.
    Wait,
    /// Run a command of the shell.
    Command(SpecialCommand),
    /// Run this code.
    Execute(String),
}

/// The block that a line opens, if any: `for ... do`, `if ... then`, or a
/// `global function ... do` or `local function ... do`.
pub open spec fn opens_block(line: Seq<char>) -> Option<MultilineType> {
    if has_prefix(line, "for "@) && has_suffix(line, " do"@) {
        Some(MultilineType::ForLoop)
    } else if has_prefix(line, "if "@) && has_suffix(line, " then"@) {
        Some(MultilineType::IfStatement)
    } else if (has_prefix(line, "global function "@) || has_prefix(line, "local function "@)) && has_suffix(line, " do"@) {
        Some(MultilineType::Function)
    } else {
        None
    }
}

/// Whether a line closes a block of the kind: `forend`, `endif`,
/// `endfunction`.
pub open spec fn closes_block(t: MultilineType, line: Seq<char>) -> bool {
    match t {
        MultilineType::ForLoop => line == "forend"@,
        MultilineType::IfStatement => line == "endif"@,
        MultilineType::Function => line == "endfunction"@,
    }
}

/// The command of the shell that a line names, if any.
pub open spec fn special_command(line: Seq<char>) -> Option<SpecialCommand> {
    if line == "exit"@ || line == "quit"@ {
        Some(SpecialCommand::Exit)
    } else if line == "help"@ {
        Some(SpecialCommand::Help)
    } else if line == "clear"@ {
        Some(SpecialCommand::Clear)
    } else if line == "vars"@ {
        Some(SpecialCommand::Vars)
    } else if line == "reset"@ {
        Some(SpecialCommand::Reset)
    } else {
        None
    }
}

/// Lines joined with line feeds.
pub open spec fn lines_joined(ls: Seq<Seq<char>>) -> Seq<char>
    decreases ls.len(),
{
    if ls.len() == 0 {
        Seq::empty()
    } else if ls.len() == 1 {
        ls[0]
    } else {
        lines_joined(ls.drop_last()) + "\n"@ + ls.last()
    }
}

/// The lines of a block being typed.
pub struct ReplState {
    multiline_buffer: Vec<String>,
    multiline_type: Option<MultilineType>,
}

impl ReplState {
    /// The kind of the block being typed, if any.
    pub closed spec fn pending(&self) -> Option<MultilineType> {
        self.multiline_type
    }

    /// The lines of the block typed so far.
    pub closed spec fn lines(&self) -> Seq<Seq<char>> {
        self.multiline_buffer@.map_values(|s: String| s@)
    }

    /// No block being typed.
    pub fn new() -> (r: Self)
        ensures
            r.pending() is None,
            r.lines() == Seq::<Seq<char>>::empty(),
    {
        let r = ReplState { multiline_buffer: Vec::new(), multiline_type: None };
        assert(r.lines() =~= Seq::<Seq<char>>::empty());
        r
    }

    /// Forgets any block being typed.
    pub fn reset(&mut self)
        ensures
            final(self).pending() is None,
            final(self).lines() == Seq::<Seq<char>>::empty(),
    {
        self.multiline_buffer.clear();
        self.multiline_type = None;
        assert(self.lines() =~= Seq::<Seq<char>>::empty());
    }

    /// Whether a block is being typed.
    pub fn in_multiline(&self) -> (r: bool)
        ensures
            r == (self.pending() is Some),
    {
        self.multiline_type.is_some()
    }

    /// The prompt: `>>> ` outside a block, else one for the kind of block.
    pub fn prompt(&self) -> (r: &'static str)
        ensures
            r@ == match self.pending() {
                None => ">>> "@,
                Some(MultilineType::ForLoop) => "... "@,
                Some(MultilineType::IfStatement) => "if> "@,
                Some(MultilineType::Function) => "fn> "@,
            },
    {
        match self.multiline_type {
            None => ">>> ",
            Some(MultilineType::ForLoop) => "... ",
            Some(MultilineType::IfStatement) => "if> ",
            Some(MultilineType::Function) => "fn> ",
        }
    }

    /// Takes a typed line, trimmed. An empty line waits. Outside a block, a
    /// command of the shell is to be run, a line that opens a block starts
    /// it, and any other line is to be run. Inside a block, the line joins
    /// it, and when it closes the block the block's lines, joined with line
    /// feeds, are to be run and the block is done.
    pub fn feed(&mut self, line: &str) -> (r: ReplAction)
        ensures
            ({
                let l = trimmed(line@);
                if l.len() == 0 {
                    r is Wait && final(self).pending() == old(self).pending()
                        && final(self).lines() == old(self).lines()
                } else {
                    match old(self).pending() {
                        None => if special_command(l) is Some {
                            r == ReplAction::Command(special_command(l)->0)
                                && final(self).pending() == old(self).pending()
                                && final(self).lines() == old(self).lines()
                        } else if opens_block(l) is Some {
                            r is Wait && final(self).pending() == opens_block(l)
                                && final(self).lines() == seq![l]
                        } else {
                            (r matches ReplAction::Execute(code) && code@ == l)
                                && final(self).pending() == old(self).pending()
                                && final(self).lines() == old(self).lines()
                        },
                        Some(t) => if closes_block(t, l) {
                            (r matches ReplAction::Execute(code) && code@ == lines_joined(old(self).lines().push(l)))
                                && final(self).pending() is None
                                && final(self).lines() == Seq::<Seq<char>>::empty()
                        } else {
                            r is Wait && final(self).pending() == old(self).pending()
                                && final(self).lines() == old(self).lines().push(l)
                        },
                    }
                }
            }),
    {
        let chars = chars_of(line);
        let t = trim(chars.as_slice());
        let l = string_of(t.as_slice());
        if t.len() == 0 {
            return ReplAction::Wait;
        }
        match self.multiline_type {
            None => {
                if let Some(cmd) = command_of(l.as_str()) {
                    return ReplAction::Command(cmd);
                }
                match block_opened(&t) {
                    Some(kind) => {
                        self.multiline_buffer.clear();
                        self.multiline_buffer.push(l);
                        self.multiline_type = Some(kind);
                        assert(self.lines() =~= seq![trimmed(line@)]);
                        ReplAction::Wait
                    },
                    None => ReplAction::Execute(l),
                }
            },
            Some(kind) => {
                let ends = match kind {
                    MultilineType::ForLoop => str_eq(l.as_str(), "forend"),
                    MultilineType::IfStatement => str_eq(l.as_str(), "endif"),
                    MultilineType::Function => str_eq(l.as_str(), "endfunction"),
                };
                let ghost before = self.lines();
                let ghost lv = l@;
                self.multiline_buffer.push(l);
                assert(self.lines() =~= before.push(lv));
                if ends {
                    let code = join_lines(&self.multiline_buffer);
                    self.reset();
                    ReplAction::Execute(code)
                } else {
                    ReplAction::Wait
                }
            },
        }
    }
}

/// The command of the shell that a line names (see `special_command`).
fn command_of(l: &str) -> (r: Option<SpecialCommand>)
    ensures
        r == special_command(l@),
{
    if str_eq(l, "exit") || str_eq(l, "quit") {
        Some(SpecialCommand::Exit)
    } else if str_eq(l, "help") {
        Some(SpecialCommand::Help)
    } else if str_eq(l, "clear") {
        Some(SpecialCommand::Clear)
    } else if str_eq(l, "vars") {
        Some(SpecialCommand::Vars)
    } else if str_eq(l, "reset") {
        Some(SpecialCommand::Reset)
    } else {
        None
    }
}

/// The block that a line opens (see `opens_block`).
fn block_opened(l: &Vec<char>) -> (r: Option<MultilineType>)
    ensures
        r == opens_block(l@),
{
    let s = l.as_slice();
    if starts_with(s, chars_of("for ").as_slice()) && ends_with(s, chars_of(" do").as_slice()) {
        Some(MultilineType::ForLoop)
    } else if starts_with(s, chars_of("if ").as_slice()) && ends_with(s, chars_of(" then").as_slice()) {
        Some(MultilineType::IfStatement)
    } else if (starts_with(s, chars_of("global function ").as_slice()) || starts_with(s, chars_of("local function ").as_slice()))
        && ends_with(s, chars_of(" do").as_slice()) {
        Some(MultilineType::Function)
    } else {
        None
    }
}

/// Joins lines with line feeds (see `lines_joined`).
fn join_lines(v: &Vec<String>) -> (r: String)
    ensures
        r@ == lines_joined(v@.map_values(|s: String| s@)),
{
    let ghost ls = v@.map_values(|s: String| s@);
    let mut r = String::new();
    let mut i: usize = 0;
    while i < v.len()
        invariant
            ls == v@.map_values(|s: String| s@),
            i <= v@.len(),
            r@ == lines_joined(ls.take(i as int)),
        decreases v.len() - i,
    {
        let ghost before = r@;
        if i > 0 {
            push_string(&mut r, "\n");
        }
        push_string(&mut r, v[i].as_str());
        proof {
            assert(ls.take(i + 1).drop_last() =~= ls.take(i as int));
            assert(ls.take(i + 1).last() == v@[i as int]@);
            if i == 0 {
                assert(r@ =~= v@[0]@);
            }
        }
        i = i + 1;
    }
    assert(ls.take(i as int) =~= ls);
    r
}

/// The name declared by a `global name = ...` or `local name = ...` line,
/// trimmed: what stands between the keyword and the first `=`.
pub open spec fn declared_name(code: Seq<char>) -> Option<Seq<char>> {
    let c = trimmed(code);
    let rest = if has_prefix(c, "global "@) {
        Some(c.skip("global "@.len() as int))
    } else if has_prefix(c, "local "@) {
        Some(c.skip("local "@.len() as int))
    } else {
        None
    };
    match rest {
        None => None,
        Some(r) => match find_from(r, seq!['='], 0) {
            Some(i) => Some(trimmed(r.take(i))),
            None => None,
        },
    }
}

/// The name declared by a line (see `declared_name`).
pub fn extract_variable_name(code: &str) -> (r: Option<String>)
    ensures
        match r {
            Some(n) => declared_name(code@) == Some(n@),
            None => declared_name(code@) is None,
        },
{
    let chars = chars_of(code);
    let c = trim(chars.as_slice());
    let g = chars_of("global ");
    let lo = chars_of("local ");
    let start = if starts_with(c.as_slice(), g.as_slice()) {
        g.len()
    } else if starts_with(c.as_slice(), lo.as_slice()) {
        lo.len()
    } else {
        return None;
    };
    let rest = crate::text::slice_chars(c.as_slice(), start, c.len());
    let mut eq: Vec<char> = Vec::new();
    eq.push('=');
    proof {
        assert(eq@ =~= seq!['=']);
        assert(rest@ =~= c@.skip(start as int));
    }
    match find_pattern(&rest, &eq, 0) {
        Some(i) => {
            let head = crate::text::slice_chars(rest.as_slice(), 0, i);
            let name = trim(head.as_slice());
            proof {
                assert(head@ =~= rest@.take(i as int));
            }
            Some(string_of(name.as_slice()))
        },
        None => None,
    }
}

} // verus!
