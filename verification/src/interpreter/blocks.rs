//! Finding the lines of multi-line constructs in source lines: where a
//! function definition, a `for` loop, an `if` or a `try` that starts at a
//! line ends; the branches of an `if` and the parts of a `try`; the header
//! and body of a `for` loop; where a declaration that spans lines ends; and
//! what running several lines does with each of them.
use vstd::prelude::*;
use crate::error::DataCodeError;
use crate::parser::ast::texts;
use super::user_functions::UserFunction;
use crate::parser::lexer::word_is;
use crate::repl::{has_prefix, has_suffix, lines_joined};
use crate::text::{chars_of, ends_with, owned, push_string, slice_chars, starts_with, str_eq, string_of, trim, trimmed,
    lemma_trimmed_twice};
use super::execution::{before_comma, find_from, find_pattern, for_variable, incomplete_assignment, is_for_line,
    is_incomplete_assignment, next_variable, parse_for_variable, parse_next_variable};

verus! {

/// `if ` starts the trimmed line, and ` do` or ` then` occurs in it.
pub open spec fn opens_if(t: Seq<char>) -> bool {
    &&& has_prefix(t, seq!['i', 'f', ' '])
    &&& (find_from(t, seq![' ', 'd', 'o'], 0) is Some || find_from(t, seq![' ', 't', 'h', 'e', 'n'], 0) is Some)
}

/// The trimmed line closes an `if`: `endif` (or `endeif`).
pub open spec fn closes_if(t: Seq<char>) -> bool {
    t == seq!['e', 'n', 'd', 'i', 'f'] || t == seq!['e', 'n', 'd', 'e', 'i', 'f']
}

/// The first index at or after `i` whose trimmed line is `endfunction`, or
/// the number of lines.
pub open spec fn function_end(ls: Seq<Seq<char>>, i: int) -> int
    decreases ls.len() - i,
{
    if !(0 <= i < ls.len()) {
        ls.len() as int
    } else if trimmed(ls[i]) == seq!['e', 'n', 'd', 'f', 'u', 'n', 'c', 't', 'i', 'o', 'n'] {
        i
    } else {
        function_end(ls, i + 1)
    }
}

/// The index at or after `i` where the `if` blocks open (`depth` of them
/// before `i`) are all closed, or the number of lines: each line opening an
/// `if` deepens, each `endif` shallows.
pub open spec fn if_end(ls: Seq<Seq<char>>, i: int, depth: int) -> int
    decreases ls.len() - i,
{
    if !(0 <= i < ls.len()) {
        ls.len() as int
    } else {
        let t = trimmed(ls[i]);
        let d = if opens_if(t) { depth + 1 } else if closes_if(t) { depth - 1 } else { depth };
        if d == 0 {
            i
        } else {
            if_end(ls, i + 1, d)
        }
    }
}

/// As `if_end`, for `try` and `endtry` lines.
pub open spec fn try_end(ls: Seq<Seq<char>>, i: int, depth: int) -> int
    decreases ls.len() - i,
{
    if !(0 <= i < ls.len()) {
        ls.len() as int
    } else {
        let t = trimmed(ls[i]);
        let d = if t == seq!['t', 'r', 'y'] {
            depth + 1
        } else if t == seq!['e', 'n', 'd', 't', 'r', 'y'] {
            depth - 1
        } else {
            depth
        };
        if d == 0 {
            i
        } else {
            try_end(ls, i + 1, d)
        }
    }
}

/// The outcome of looking for the end of a `for` loop.
pub enum ForScan {
    /// The index of the `next` line that closes the loop.
    End(int),
    /// A `next` line for another variable than the innermost loop's: that
    /// variable, and the one after `next`.
    Mismatch(Seq<char>, Seq<char>),
    /// The lines end inside the loop of this variable (the outermost one).
    Missing(Seq<char>),
}

/// Scans from line `i` for the end of a `for` loop, `stack` holding the
/// variables of the loops open (innermost last), `tries` and `ifs` the
/// depths of the `try` and `if` blocks open inside them. Lines inside such
/// a block are passed over; a `for` line opens a loop, and a `next` line
/// closes the innermost one when its variable (or the part of it before a
/// comma) is that loop's.
pub open spec fn for_scan(ls: Seq<Seq<char>>, i: int, stack: Seq<Seq<char>>, tries: nat, ifs: nat) -> ForScan
    decreases ls.len() - i,
{
    if stack.len() == 0 {
        ForScan::End(i)
    } else if !(0 <= i < ls.len()) {
        ForScan::Missing(stack[0])
    } else {
        let t = trimmed(ls[i]);
        if t == seq!['t', 'r', 'y'] {
            for_scan(ls, i + 1, stack, tries + 1, ifs)
        } else if t == seq!['e', 'n', 'd', 't', 'r', 'y'] {
            for_scan(ls, i + 1, stack, if tries > 0 { (tries - 1) as nat } else { 0 }, ifs)
        } else if has_prefix(t, seq!['c', 'a', 't', 'c', 'h']) && tries > 0 {
            for_scan(ls, i + 1, stack, tries, ifs)
        } else {
            let ifs2: nat = if opens_if(t) {
                ifs + 1
            } else if closes_if(t) {
                if ifs > 0 { (ifs - 1) as nat } else { 0 }
            } else {
                ifs
            };
            if tries > 0 || ifs2 > 0 {
                for_scan(ls, i + 1, stack, tries, ifs2)
            } else if is_for_line(t) {
                let stack2 = match for_variable(t) {
                    Some(v) => stack.push(v),
                    None => stack,
                };
                for_scan(ls, i + 1, stack2, tries, ifs2)
            } else {
                match next_variable(t) {
                    Some(nv) => {
                        let last = stack.last();
                        if trimmed(before_comma(nv)) == last || nv == last {
                            if stack.len() == 1 {
                                ForScan::End(i)
                            } else {
                                for_scan(ls, i + 1, stack.drop_last(), tries, ifs2)
                            }
                        } else {
                            ForScan::Mismatch(last, nv)
                        }
                    },
                    None => for_scan(ls, i + 1, stack, tries, ifs2),
                }
            }
        }
    }
}

/// The error message for a `next` line of the wrong variable.
pub open spec fn mismatch_message(expected: Seq<char>, found: Seq<char>) -> Seq<char> {
    "Mismatched next: expected 'next "@ + expected + "' but found 'next "@ + found + "'"@
}

/// The error message for a loop that the lines end in.
pub open spec fn missing_message(var: Seq<char>) -> Seq<char> {
    "Missing 'next "@ + var + "' in for loop"@
}

/// The result is a syntax error with this message at this line.
pub open spec fn syntax_error_with<T>(r: Result<T, DataCodeError>, message: Seq<char>, line: usize) -> bool {
    r matches Err(DataCodeError::SyntaxError { message: m, line: l, column: c }) && m@ == message && l == line && c == 0
}

/// Whether the trimmed characters `t` are `word`.
fn is_word(t: &Vec<char>, word: &[char]) -> (r: bool)
    ensures
        r == (t@ == word@),
{
    word_is(t, word)
}

/// Whether the trimmed line opens an `if` (see `opens_if`).
fn opens_if_line(t: &Vec<char>) -> (r: bool)
    ensures
        r == opens_if(t@),
{
    if !starts_with(t.as_slice(), &['i', 'f', ' ']) {
        return false;
    }
    if t.len() == 0 {
        return false;
    }
    let d = vec![' ', 'd', 'o'];
    let th = vec![' ', 't', 'h', 'e', 'n'];
    find_pattern(t, &d, 0).is_some() || find_pattern(t, &th, 0).is_some()
}

/// Whether the trimmed line closes an `if` (see `closes_if`).
fn closes_if_line(t: &Vec<char>) -> (r: bool)
    ensures
        r == closes_if(t@),
{
    is_word(t, &['e', 'n', 'd', 'i', 'f']) || is_word(t, &['e', 'n', 'd', 'e', 'i', 'f'])
}

/// The characters of line `i`, trimmed.
fn trimmed_line(lines: &[String], i: usize) -> (r: Vec<char>)
    requires
        i < lines@.len(),
    ensures
        r@ == trimmed(texts(lines@)[i as int]),
{
    let c = chars_of(lines[i].as_str());
    trim(c.as_slice())
}

/// The index of the line that ends the function definition starting at
/// line `start`: the first `endfunction` line after it, or the number of
/// lines.
pub fn function_definition_end(lines: &[String], start: usize) -> (r: usize)
    requires
        start < lines@.len(),
    ensures
        r == function_end(texts(lines@), start + 1),
{
    let ghost ls = texts(lines@);
    let n = lines.len();
    let mut i = start + 1;
    while i < n
        invariant
            start < i <= lines@.len(),
            n == lines@.len(),
            ls == texts(lines@),
            function_end(ls, i as int) == function_end(ls, start + 1),
        decreases n - i,
    {
        let t = trimmed_line(lines, i);
        if is_word(&t, &['e', 'n', 'd', 'f', 'u', 'n', 'c', 't', 'i', 'o', 'n']) {
            return i;
        }
        i = i + 1;
    }
    i
}

/// The index of the line that closes the `if` starting at line `start`
/// (see `if_end`), or the number of lines.
pub fn if_statement_end(lines: &[String], start: usize) -> (r: usize)
    requires
        start < lines@.len(),
    ensures
        r == if_end(texts(lines@), start + 1, 1),
{
    let ghost ls = texts(lines@);
    let mut depth: usize = 1;
    let n = lines.len();
    let mut i = start + 1;
    while i < n
        invariant
            start < i <= lines@.len(),
            n == lines@.len(),
            ls == texts(lines@),
            1 <= depth <= i - start,
            if_end(ls, i as int, depth as int) == if_end(ls, start + 1, 1),
        decreases n - i,
    {
        let t = trimmed_line(lines, i);
        if opens_if_line(&t) {
            depth = depth + 1;
        } else if closes_if_line(&t) {
            depth = depth - 1;
        }
        if depth == 0 {
            return i;
        }
        i = i + 1;
    }
    i
}

/// The index of the line that closes the `try` starting at line `start`
/// (see `try_end`), or the number of lines.
pub fn try_statement_end(lines: &[String], start: usize) -> (r: usize)
    requires
        start < lines@.len(),
    ensures
        r == try_end(texts(lines@), start + 1, 1),
{
    let ghost ls = texts(lines@);
    let mut depth: usize = 1;
    let n = lines.len();
    let mut i = start + 1;
    while i < n
        invariant
            start < i <= lines@.len(),
            n == lines@.len(),
            ls == texts(lines@),
            1 <= depth <= i - start,
            try_end(ls, i as int, depth as int) == try_end(ls, start + 1, 1),
        decreases n - i,
    {
        let t = trimmed_line(lines, i);
        if is_word(&t, &['t', 'r', 'y']) {
            depth = depth + 1;
        } else if is_word(&t, &['e', 'n', 'd', 't', 'r', 'y']) {
            depth = depth - 1;
        }
        if depth == 0 {
            return i;
        }
        i = i + 1;
    }
    i
}

/// The part of `s` before its first comma, trimmed (see `before_comma`).
fn first_before_comma(s: &str) -> (r: String)
    ensures
        r@ == trimmed(before_comma(s@)),
{
    let c = chars_of(s);
    let comma = vec![','];
    assert(comma@ =~= seq![',']);
    let cut = match find_pattern(&c, &comma, 0) {
        Some(k) => k,
        None => c.len(),
    };
    let mut head: Vec<char> = Vec::new();
    let mut j: usize = 0;
    while j < cut
        invariant
            cut <= c@.len(),
            j <= cut,
            head@ == c@.take(j as int),
        decreases cut - j,
    {
        head.push(c[j]);
        proof { assert(c@.take(j + 1) =~= c@.take(j as int).push(c@[j as int])); }
        j = j + 1;
    }
    proof {
        if cut == c@.len() {
            assert(c@.take(cut as int) =~= c@);
        }
    }
    let t = trim(head.as_slice());
    string_of(t.as_slice())
}

/// The views of a list of strings, with one more pushed.
proof fn lemma_texts_push(v: Seq<String>, x: String)
    ensures
        texts(v.push(x)) == texts(v).push(x@),
{
    assert(texts(v.push(x)) =~= texts(v).push(x@));
}

/// The index of the `next` line that closes the `for` loop starting at
/// line `start` (see `for_scan`); a syntax error at `line` for a start line
/// that is no `for` line, a `next` of the wrong variable, or a loop that the
/// lines end in. A line `for do` is left out.
pub fn for_loop_end(lines: &[String], start: usize, line: usize) -> (r: Result<usize, DataCodeError>)
    requires
        start < lines@.len(),
        forall|k: int| 0 <= k < lines@.len() ==> trimmed(#[trigger] texts(lines@)[k]) != seq!['f', 'o', 'r', ' ', 'd', 'o'],
    ensures
        match for_variable(texts(lines@)[start as int]) {
            None => syntax_error_with(r, "Invalid for syntax: expected 'for variable in iterable do'"@, line),
            Some(v) => match for_scan(texts(lines@), start + 1, seq![v], 0, 0) {
                ForScan::End(e) => r matches Ok(x) && x == e,
                ForScan::Mismatch(a, b) => syntax_error_with(r, mismatch_message(a, b), line),
                ForScan::Missing(a) => syntax_error_with(r, missing_message(a), line),
            },
        },
{
    let ghost ls = texts(lines@);
    assert(lines@[start as int]@ == ls[start as int]);
    let first = match parse_for_variable(lines[start].as_str()) {
        Some(v) => v,
        None => {
            return Err(DataCodeError::syntax_error(
                owned("Invalid for syntax: expected 'for variable in iterable do'"),
                line,
                0,
            ));
        },
    };
    let ghost v0 = first@;
    let mut stack: Vec<String> = Vec::new();
    stack.push(first);
    proof { assert(texts(stack@) =~= seq![v0]); }
    let mut tries: usize = 0;
    let mut ifs: usize = 0;
    let n = lines.len();
    let mut i = start + 1;
    loop
        invariant
            start < i <= n,
            n == lines@.len(),
            ls == texts(lines@),
            for_variable(ls[start as int]) == Some(v0),
            stack@.len() > 0,
            tries <= i,
            ifs <= i,
            forall|k: int| 0 <= k < lines@.len() ==> trimmed(#[trigger] texts(lines@)[k]) != seq!['f', 'o', 'r', ' ', 'd', 'o'],
            for_scan(ls, i as int, texts(stack@), tries as nat, ifs as nat) == for_scan(ls, start + 1, seq![v0], 0, 0),
        decreases n - i,
    {
        if i >= n {
            let mut m = owned("Missing 'next ");
            push_string(&mut m, stack[0].as_str());
            push_string(&mut m, "' in for loop");
            return Err(DataCodeError::syntax_error(m, line, 0));
        }
        let t = trimmed_line(lines, i);
        if is_word(&t, &['t', 'r', 'y']) {
            tries = tries + 1;
            i = i + 1;
            continue;
        }
        if is_word(&t, &['e', 'n', 'd', 't', 'r', 'y']) {
            if tries > 0 {
                tries = tries - 1;
            }
            i = i + 1;
            continue;
        }
        if starts_with(t.as_slice(), &['c', 'a', 't', 'c', 'h']) && tries > 0 {
            i = i + 1;
            continue;
        }
        if opens_if_line(&t) {
            ifs = ifs + 1;
        } else if closes_if_line(&t) {
            if ifs > 0 {
                ifs = ifs - 1;
            }
        }
        if tries > 0 || ifs > 0 {
            i = i + 1;
            continue;
        }
        let text = string_of(t.as_slice());
        proof {
            lemma_trimmed_twice(ls[i as int]);
            assert(lines@[i as int]@ == ls[i as int]);
        }
        if starts_with(t.as_slice(), &['f', 'o', 'r', ' ']) && ends_with(t.as_slice(), &[' ', 'd', 'o']) {
            proof {
                assert(t@.take(4) == t@.subrange(0, 4));
                assert(t@.skip(t@.len() - 3) == t@.subrange(t@.len() - 3, t@.len() as int));
            }
            match parse_for_variable(text.as_str()) {
                Some(v) => {
                    proof { lemma_texts_push(stack@, v); }
                    stack.push(v);
                },
                None => {},
            }
            i = i + 1;
            continue;
        }
        proof {
            if t@.len() >= 4 && t@.take(4) == seq!['f', 'o', 'r', ' '] && t@.len() >= 3 {
                assert(t@.take(4) == t@.subrange(0, 4));
                assert(t@.skip(t@.len() - 3) == t@.subrange(t@.len() - 3, t@.len() as int));
            }
        }
        match parse_next_variable(text.as_str()) {
            Some(nv) => {
                let last = stack.len() - 1;
                let head = first_before_comma(nv.as_str());
                if str_eq(head.as_str(), stack[last].as_str()) || str_eq(nv.as_str(), stack[last].as_str()) {
                    proof { assert(texts(stack@).last() == stack@[last as int]@); }
                    if stack.len() == 1 {
                        return Ok(i);
                    }
                    let ghost before = stack@;
                    stack.pop();
                    proof { assert(texts(stack@) =~= texts(before).drop_last()); }
                } else {
                    let mut m = owned("Mismatched next: expected 'next ");
                    push_string(&mut m, stack[last].as_str());
                    push_string(&mut m, "' but found 'next ");
                    push_string(&mut m, nv.as_str());
                    push_string(&mut m, "'");
                    return Err(DataCodeError::syntax_error(m, line, 0));
                }
            },
            None => {},
        }
        i = i + 1;
    }
}

/// ` do` or ` then` occurs in the trimmed line.
pub open spec fn has_do_or_then(t: Seq<char>) -> bool {
    find_from(t, seq![' ', 'd', 'o'], 0) is Some || find_from(t, seq![' ', 't', 'h', 'e', 'n'], 0) is Some
}

/// The condition in the rest of an `if` line: what comes before its
/// ending ` do` or ` then`, trimmed.
pub open spec fn condition_of(rest: Seq<char>) -> Option<Seq<char>> {
    if has_suffix(rest, seq![' ', 'd', 'o']) {
        Some(trimmed(rest.take(rest.len() - 3)))
    } else if has_suffix(rest, seq![' ', 't', 'h', 'e', 'n']) {
        Some(trimmed(rest.take(rest.len() - 5)))
    } else {
        None
    }
}

/// Where the splitting of an `if` into branches stands: the depth of the
/// `if`s open, the lines of the branch being read and its condition
/// (none in the `else` branch), whether the `else` branch was reached, the
/// branches read, and the lines of the `else` branch once it is closed.
pub struct IfSplit {
    pub depth: int,
    pub body: Seq<Seq<char>>,
    pub cond: Option<Seq<char>>,
    pub in_else: bool,
    pub blocks: Seq<(Seq<char>, Seq<Seq<char>>)>,
    pub else_body: Option<Seq<Seq<char>>>,
}

/// The branch being read, when it has a condition, joins the branches read,
/// and the next one starts empty and without a condition.
pub open spec fn branch_saved(st: IfSplit) -> IfSplit {
    match st.cond {
        Some(c) => IfSplit { blocks: st.blocks.push((c, st.body)), body: Seq::empty(), cond: None, ..st },
        None => st,
    }
}

/// Splits the lines from `i` on: an `else if` line at depth 1 and the first
/// `if` line start a branch with their condition, `else` at depth 1 starts
/// the `else` branch, nested `if` lines and their `endif`s belong to the
/// branch being read, and an `endif` at depth 0 ends the splitting. An
/// `if` or `else if` line with ` do` or ` then` inside but not at its end
/// is an error.
pub open spec fn if_split(ls: Seq<Seq<char>>, i: int, st: IfSplit) -> Result<IfSplit, Seq<char>>
    decreases ls.len() - i,
{
    if !(0 <= i < ls.len()) {
        Ok(st)
    } else {
        let line = ls[i];
        let t = trimmed(line);
        if has_prefix(t, seq!['e', 'l', 's', 'e', ' ', 'i', 'f', ' ']) && has_do_or_then(t) && st.depth == 1 {
            let saved = branch_saved(st);
            match condition_of(t.skip(8)) {
                None => Err("Invalid else if statement"@),
                Some(c) => if_split(ls, i + 1, IfSplit { cond: Some(c), ..saved }),
            }
        } else if has_prefix(t, seq!['i', 'f', ' ']) && has_do_or_then(t) {
            if st.depth == 0 {
                let saved = branch_saved(st);
                match condition_of(t.skip(3)) {
                    None => Err("Invalid if statement"@),
                    Some(c) => if_split(ls, i + 1, IfSplit { cond: Some(c), depth: st.depth + 1, ..saved }),
                }
            } else {
                if_split(ls, i + 1, IfSplit { body: st.body.push(line), depth: st.depth + 1, ..st })
            }
        } else if closes_if(t) {
            if st.depth == 0 {
                Ok(match st.cond {
                    Some(c) => IfSplit { blocks: st.blocks.push((c, st.body)), cond: None, ..st },
                    None => if st.in_else { IfSplit { else_body: Some(st.body), ..st } } else { st },
                })
            } else {
                let d = st.depth - 1;
                if_split(ls, i + 1, IfSplit { depth: d, body: if d > 0 { st.body.push(line) } else { st.body }, ..st })
            }
        } else if t == seq!['e', 'l', 's', 'e'] && st.depth == 1 {
            if_split(ls, i + 1, IfSplit { in_else: true, ..branch_saved(st) })
        } else {
            if_split(ls, i + 1, IfSplit { body: st.body.push(line), ..st })
        }
    }
}

/// The state before the first line.
pub open spec fn if_split_start() -> IfSplit {
    IfSplit { depth: 0, body: Seq::empty(), cond: None, in_else: false, blocks: Seq::empty(), else_body: None }
}

/// The branches of an `if` (each a condition and its lines) and the lines
/// of its `else` branch, if any; or the message of the error. The last
/// branch read joins the branches if it has a condition, and otherwise is
/// the `else` branch if that was reached and not closed.
pub open spec fn if_parts(ls: Seq<Seq<char>>) -> Result<(Seq<(Seq<char>, Seq<Seq<char>>)>, Option<Seq<Seq<char>>>), Seq<char>> {
    match if_split(ls, 0, if_split_start()) {
        Err(m) => Err(m),
        Ok(st) => match st.cond {
            Some(c) => Ok((st.blocks.push((c, st.body)), st.else_body)),
            None => if st.in_else && st.else_body is None {
                Ok((st.blocks, Some(st.body)))
            } else {
                Ok((st.blocks, st.else_body))
            },
        },
    }
}

/// A branch of an `if`: its condition and its lines.
pub struct ConditionalBlock {
    pub condition: String,
    pub body: Vec<String>,
}

/// The branches of an `if`, and the lines of its `else` branch.
pub struct IfStatementParts {
    pub blocks: Vec<ConditionalBlock>,
    pub else_body: Option<Vec<String>>,
}

/// The views of a list of branches.
pub open spec fn branch_views(v: Seq<ConditionalBlock>) -> Seq<(Seq<char>, Seq<Seq<char>>)> {
    v.map_values(|b: ConditionalBlock| (b.condition@, texts(b.body@)))
}

/// The view of an optional list of lines.
pub open spec fn optional_texts(v: Option<Vec<String>>) -> Option<Seq<Seq<char>>> {
    match v {
        Some(e) => Some(texts(e@)),
        None => None,
    }
}

/// Whether ` do` or ` then` occurs in the trimmed line.
fn has_do_or_then_line(t: &Vec<char>) -> (r: bool)
    ensures
        r == has_do_or_then(t@),
{
    let d = vec![' ', 'd', 'o'];
    let th = vec![' ', 't', 'h', 'e', 'n'];
    assert(d@ =~= seq![' ', 'd', 'o']);
    assert(th@ =~= seq![' ', 't', 'h', 'e', 'n']);
    find_pattern(t, &d, 0).is_some() || find_pattern(t, &th, 0).is_some()
}

/// The condition in the trimmed line after its first `skip` characters
/// (see `condition_of`).
fn condition_after(t: &Vec<char>, skip: usize) -> (r: Option<String>)
    requires
        skip <= t@.len(),
    ensures
        match r {
            Some(c) => condition_of(t@.skip(skip as int)) == Some(c@),
            None => condition_of(t@.skip(skip as int)) is None,
        },
{
    let rest = slice_chars(t.as_slice(), skip, t.len());
    assert(rest@ =~= t@.skip(skip as int));
    if ends_with(rest.as_slice(), &[' ', 'd', 'o']) {
        let c = slice_chars(rest.as_slice(), 0, rest.len() - 3);
        assert(c@ =~= rest@.take(rest@.len() - 3));
        let c = trim(c.as_slice());
        Some(string_of(c.as_slice()))
    } else if ends_with(rest.as_slice(), &[' ', 't', 'h', 'e', 'n']) {
        let c = slice_chars(rest.as_slice(), 0, rest.len() - 5);
        assert(c@ =~= rest@.take(rest@.len() - 5));
        let c = trim(c.as_slice());
        Some(string_of(c.as_slice()))
    } else {
        None
    }
}

/// The view of the splitting state held in these variables.
pub open spec fn split_view(
    depth: usize,
    body: Seq<String>,
    cond: Option<String>,
    in_else: bool,
    blocks: Seq<ConditionalBlock>,
    else_body: Option<Vec<String>>,
) -> IfSplit {
    IfSplit {
        depth: depth as int,
        body: texts(body),
        cond: match cond { Some(c) => Some(c@), None => None },
        in_else,
        blocks: branch_views(blocks),
        else_body: optional_texts(else_body),
    }
}

/// Splits the lines of an `if` into its branches (see `if_parts`); a syntax
/// error at `line` for a malformed `if` or `else if` line.
pub fn split_if_statement(if_lines: &[String], line: usize) -> (r: Result<IfStatementParts, DataCodeError>)
    ensures
        match if_parts(texts(if_lines@)) {
            Ok((blocks, else_body)) => r matches Ok(p) && branch_views(p.blocks@) == blocks
                && optional_texts(p.else_body) == else_body,
            Err(m) => syntax_error_with(r, m, line),
        },
{
    let ghost ls = texts(if_lines@);
    let n = if_lines.len();
    let mut depth: usize = 0;
    let mut body: Vec<String> = Vec::new();
    let mut cond: Option<String> = None;
    let mut in_else = false;
    let mut blocks: Vec<ConditionalBlock> = Vec::new();
    let mut else_body: Option<Vec<String>> = None;
    let mut done = false;
    let mut i: usize = 0;
    proof {
        assert(texts(body@) =~= Seq::<Seq<char>>::empty());
        assert(branch_views(blocks@) =~= Seq::<(Seq<char>, Seq<Seq<char>>)>::empty());
        assert(split_view(depth, body@, cond, in_else, blocks@, else_body) == if_split_start());
    }
    while i < n && !done
        invariant
            i <= n,
            n == if_lines@.len(),
            ls == texts(if_lines@),
            depth <= i,
            if done {
                Ok::<IfSplit, Seq<char>>(split_view(depth, body@, cond, in_else, blocks@, else_body))
                    == if_split(ls, 0, if_split_start())
            } else {
                if_split(ls, i as int, split_view(depth, body@, cond, in_else, blocks@, else_body))
                    == if_split(ls, 0, if_split_start())
            },
        decreases n - i, if done { 0int } else { 1int },
    {
        let ghost st = split_view(depth, body@, cond, in_else, blocks@, else_body);
        proof { assert(if_lines@[i as int]@ == ls[i as int]); }
        let t = trimmed_line(if_lines, i);
        if starts_with(t.as_slice(), &['e', 'l', 's', 'e', ' ', 'i', 'f', ' ']) && has_do_or_then_line(&t) && depth == 1 {
            match cond.take() {
                Some(c) => {
                    proof {
                        assert(branch_views(blocks@.push(ConditionalBlock { condition: c, body: body })) =~=
                            branch_views(blocks@).push((c@, texts(body@))));
                    }
                    blocks.push(ConditionalBlock { condition: c, body });
                    body = Vec::new();
                    proof { assert(texts(body@) =~= Seq::<Seq<char>>::empty()); }
                },
                None => {},
            }
            match condition_after(&t, 8) {
                Some(c) => {
                    cond = Some(c);
                },
                None => return Err(DataCodeError::syntax_error(owned("Invalid else if statement"), line, 0)),
            }
            i = i + 1;
            continue;
        }
        if starts_with(t.as_slice(), &['i', 'f', ' ']) && has_do_or_then_line(&t) {
            if depth == 0 {
                match cond.take() {
                    Some(c) => {
                        proof {
                            assert(branch_views(blocks@.push(ConditionalBlock { condition: c, body: body })) =~=
                                branch_views(blocks@).push((c@, texts(body@))));
                        }
                        blocks.push(ConditionalBlock { condition: c, body });
                        body = Vec::new();
                        proof { assert(texts(body@) =~= Seq::<Seq<char>>::empty()); }
                    },
                    None => {},
                }
                match condition_after(&t, 3) {
                    Some(c) => {
                        cond = Some(c);
                    },
                    None => return Err(DataCodeError::syntax_error(owned("Invalid if statement"), line, 0)),
                }
            } else {
                proof { lemma_texts_push(body@, if_lines@[i as int]); }
                body.push(if_lines[i].clone());
            }
            depth = depth + 1;
        } else if closes_if_line(&t) {
            if depth == 0 {
                match cond.take() {
                    Some(c) => {
                        let b = body.clone();
                        proof {
                            assert(b@ == body@);
                            assert(branch_views(blocks@.push(ConditionalBlock { condition: c, body: b })) =~=
                                branch_views(blocks@).push((c@, texts(body@))));
                        }
                        blocks.push(ConditionalBlock { condition: c, body: b });
                    },
                    None => {
                        if in_else {
                            let b = body.clone();
                            proof { assert(b@ == body@); }
                            else_body = Some(b);
                        }
                    },
                }
                done = true;
                continue;
            }
            depth = depth - 1;
            if depth > 0 {
                proof { lemma_texts_push(body@, if_lines@[i as int]); }
                body.push(if_lines[i].clone());
            }
        } else if is_word(&t, &['e', 'l', 's', 'e']) && depth == 1 {
            match cond.take() {
                Some(c) => {
                    proof {
                        assert(branch_views(blocks@.push(ConditionalBlock { condition: c, body: body })) =~=
                            branch_views(blocks@).push((c@, texts(body@))));
                    }
                    blocks.push(ConditionalBlock { condition: c, body });
                    body = Vec::new();
                    proof { assert(texts(body@) =~= Seq::<Seq<char>>::empty()); }
                },
                None => {},
            }
            in_else = true;
            i = i + 1;
            continue;
        } else {
            proof { lemma_texts_push(body@, if_lines@[i as int]); }
            body.push(if_lines[i].clone());
        }
        i = i + 1;
    }
    match cond {
        Some(c) => {
            proof {
                assert(branch_views(blocks@.push(ConditionalBlock { condition: c, body: body })) =~=
                    branch_views(blocks@).push((c@, texts(body@))));
            }
            blocks.push(ConditionalBlock { condition: c, body });
        },
        None => {
            if in_else && else_body.is_none() {
                else_body = Some(body);
            }
        },
    }
    Ok(IfStatementParts { blocks, else_body })
}

/// What running several lines of code does with the line at an index.
#[derive(Debug, Clone, Copy, PartialEq, Eq, Structural)]
pub enum LineAction {
    /// An empty line or a `#` comment: go on with the next line.
    Skip,
    /// A `"""` comment whose last line is at this index: go on after it.
    CommentUntil(usize),
    /// A `"""` comment that is never closed: an error.
    UnclosedComment,
    /// The start of a function definition.
    FunctionDefinition,
    /// The start of a `for` loop.
    ForLoop,
    /// The start of an `if`.
    IfStatement,
    /// The start of a `try`.
    TryStatement,
    /// A declaration that goes on over the next lines.
    MultilineAssignment,
    /// A line to run on its own.
    Simple,
}

/// The first index at or after `j` whose trimmed line ends with `"""`.
pub open spec fn comment_close(ls: Seq<Seq<char>>, j: int) -> Option<int>
    decreases ls.len() - j,
{
    if !(0 <= j < ls.len()) {
        None
    } else if has_suffix(trimmed(ls[j]), seq!['"', '"', '"']) {
        Some(j)
    } else {
        comment_close(ls, j + 1)
    }
}

/// The trimmed line starts a function definition: `function `,
/// `global function ` or `local function `.
pub open spec fn starts_function(t: Seq<char>) -> bool {
    ||| has_prefix(t, seq!['f', 'u', 'n', 'c', 't', 'i', 'o', 'n', ' '])
    ||| has_prefix(t, seq!['g', 'l', 'o', 'b', 'a', 'l', ' ', 'f', 'u', 'n', 'c', 't', 'i', 'o', 'n', ' '])
    ||| has_prefix(t, seq!['l', 'o', 'c', 'a', 'l', ' ', 'f', 'u', 'n', 'c', 't', 'i', 'o', 'n', ' '])
}

/// What is done with line `i` (see `LineAction`), checked in this order:
/// an empty or `#` line is skipped; a `"""` line is a comment on its own
/// line when it also ends with `"""` (and is longer), or else runs to the
/// next line ending with `"""`; then a function definition, a `for` line,
/// an `if` line with ` do` or ` then`, `try`, a declaration that goes on,
/// and any other line.
pub open spec fn line_action(ls: Seq<Seq<char>>, i: int) -> LineAction {
    let t = trimmed(ls[i]);
    let quotes = seq!['"', '"', '"'];
    if t.len() == 0 || t[0] == '#' {
        LineAction::Skip
    } else if has_prefix(t, quotes) {
        if t.len() > 3 && has_suffix(t, quotes) && t != quotes {
            LineAction::Skip
        } else {
            match comment_close(ls, i + 1) {
                Some(j) => LineAction::CommentUntil(j as usize),
                None => LineAction::UnclosedComment,
            }
        }
    } else if starts_function(t) {
        LineAction::FunctionDefinition
    } else if is_for_line(t) {
        LineAction::ForLoop
    } else if opens_if(t) {
        LineAction::IfStatement
    } else if t == seq!['t', 'r', 'y'] {
        LineAction::TryStatement
    } else if incomplete_assignment(t) {
        LineAction::MultilineAssignment
    } else {
        LineAction::Simple
    }
}

/// What running several lines does with line `i` (see `line_action`).
pub fn multiline_action(lines: &[String], i: usize) -> (r: LineAction)
    requires
        i < lines@.len(),
        lines@[i as int]@.len() < 0x7fff_ffff,
    ensures
        r == line_action(texts(lines@), i as int),
{
    let ghost ls = texts(lines@);
    proof { assert(lines@[i as int]@ == ls[i as int]); }
    let t = trimmed_line(lines, i);
    if t.len() == 0 || t[0] == '#' {
        return LineAction::Skip;
    }
    let quotes = vec!['"', '"', '"'];
    assert(quotes@ =~= seq!['"', '"', '"']);
    if starts_with(t.as_slice(), quotes.as_slice()) {
        if t.len() > 3 && ends_with(t.as_slice(), quotes.as_slice()) {
            proof { assert(t@ != seq!['"', '"', '"']); }
            return LineAction::Skip;
        }
        let n = lines.len();
        let mut j = i + 1;
        assert(line_action(ls, i as int) == match comment_close(ls, i + 1) {
            Some(k) => LineAction::CommentUntil(k as usize),
            None => LineAction::UnclosedComment,
        });
        while j < n
            invariant
                i < j <= n,
                line_action(ls, i as int) == match comment_close(ls, i + 1) {
                    Some(k) => LineAction::CommentUntil(k as usize),
                    None => LineAction::UnclosedComment,
                },
                n == lines@.len(),
                ls == texts(lines@),
                quotes@ == seq!['"', '"', '"'],
                comment_close(ls, j as int) == comment_close(ls, i + 1),
            decreases n - j,
        {
            let c = trimmed_line(lines, j);
            if ends_with(c.as_slice(), quotes.as_slice()) {
                return LineAction::CommentUntil(j);
            }
            j = j + 1;
        }
        return LineAction::UnclosedComment;
    }
    let text = string_of(t.as_slice());
    if starts_with(t.as_slice(), &['f', 'u', 'n', 'c', 't', 'i', 'o', 'n', ' '])
        || starts_with(t.as_slice(), &['g', 'l', 'o', 'b', 'a', 'l', ' ', 'f', 'u', 'n', 'c', 't', 'i', 'o', 'n', ' '])
        || starts_with(t.as_slice(), &['l', 'o', 'c', 'a', 'l', ' ', 'f', 'u', 'n', 'c', 't', 'i', 'o', 'n', ' ']) {
        return LineAction::FunctionDefinition;
    }
    if starts_with(t.as_slice(), &['f', 'o', 'r', ' ']) && ends_with(t.as_slice(), &[' ', 'd', 'o']) {
        proof {
            assert(t@.take(4) == t@.subrange(0, 4));
            assert(t@.skip(t@.len() - 3) == t@.subrange(t@.len() - 3, t@.len() as int));
        }
        return LineAction::ForLoop;
    }
    proof {
        if t@.len() >= 4 && t@.take(4) == seq!['f', 'o', 'r', ' '] && t@.len() >= 3 {
            assert(t@.take(4) == t@.subrange(0, 4));
            assert(t@.skip(t@.len() - 3) == t@.subrange(t@.len() - 3, t@.len() as int));
        }
    }
    if opens_if_line(&t) {
        return LineAction::IfStatement;
    }
    if is_word(&t, &['t', 'r', 'y']) {
        return LineAction::TryStatement;
    }
    proof {
        crate::text::lemma_trim_left_front(ls[i as int]);
        crate::text::lemma_trim_right_shape(crate::text::trim_left(ls[i as int]));
    }
    if is_incomplete_assignment(text.as_str()) {
        return LineAction::MultilineAssignment;
    }
    LineAction::Simple
}

/// The pieces of `s` between commas (`s.split(',')`), in order.
pub open spec fn comma_pieces(s: Seq<char>) -> Seq<Seq<char>>
    decreases s.len(),
{
    match find_from(s, seq![','], 0) {
        None => seq![s],
        Some(i) => if 0 <= i < s.len() {
            seq![s.take(i)] + comma_pieces(s.skip(i + 1))
        } else {
            seq![s]
        },
    }
}

/// The outcome of reading the first line of a `for` loop.
pub enum ForHeader {
    /// The line is no `for ... do` line.
    NotFor,
    /// The part between `for ` and ` do` has no ` in `, or more than one.
    NoSingleIn,
    /// The loop variables (the pieces before ` in ` between commas,
    /// trimmed) and the text iterated over (after ` in `, trimmed).
    Header(Seq<Seq<char>>, Seq<char>),
}

/// Reads the first line of a `for` loop.
pub open spec fn for_header(line: Seq<char>) -> ForHeader {
    let t = trimmed(line);
    if !is_for_line(t) {
        ForHeader::NotFor
    } else {
        let body = t.subrange(4, t.len() - 3);
        let pat = seq![' ', 'i', 'n', ' '];
        match find_from(body, pat, 0) {
            None => ForHeader::NoSingleIn,
            Some(i) => match find_from(body, pat, i + 4) {
                Some(_) => ForHeader::NoSingleIn,
                None => ForHeader::Header(
                    comma_pieces(trimmed(body.take(i))).map_values(|p: Seq<char>| trimmed(p)),
                    trimmed(body.skip(i + 4)),
                ),
            },
        }
    }
}

/// The pieces of `s` between commas, each trimmed (see `comma_pieces`).
fn trimmed_comma_pieces(s: &Vec<char>) -> (r: Vec<String>)
    ensures
        texts(r@) == comma_pieces(s@).map_values(|p: Seq<char>| trimmed(p)),
    decreases s@.len(),
{
    let comma = vec![','];
    assert(comma@ =~= seq![',']);
    match find_pattern(s, &comma, 0) {
        None => {
            let t = trim(s.as_slice());
            let mut r: Vec<String> = Vec::new();
            r.push(string_of(t.as_slice()));
            proof {
                assert(texts(r@) =~= seq![trimmed(s@)]);
                assert(comma_pieces(s@) == seq![s@]);
                assert(comma_pieces(s@).map_values(|p: Seq<char>| trimmed(p)) =~= seq![trimmed(s@)]);
            }
            r
        },
        Some(k) => {
            let n = s.len();
            assert(k + comma@.len() <= n && comma@.len() == 1);
            let after: usize = k + 1;
            let head = slice_chars(s.as_slice(), 0, k);
            let tail = slice_chars(s.as_slice(), after, s.len());
            assert(head@ =~= s@.take(k as int));
            assert(tail@ =~= s@.skip(k + 1));
            let t = trim(head.as_slice());
            let rest = trimmed_comma_pieces(&tail);
            let mut r: Vec<String> = Vec::new();
            r.push(string_of(t.as_slice()));
            let mut j: usize = 0;
            while j < rest.len()
                invariant
                    j <= rest@.len(),
                    texts(r@) == seq![trimmed(head@)] + texts(rest@).take(j as int),
                decreases rest.len() - j,
            {
                proof { lemma_texts_push(r@, rest@[j as int]); }
                r.push(rest[j].clone());
                proof { assert(texts(rest@).take(j + 1) =~= texts(rest@).take(j as int).push(rest@[j as int]@)); }
                j = j + 1;
            }
            proof {
                assert(texts(rest@).take(rest@.len() as int) =~= texts(rest@));
                assert(comma_pieces(s@) == seq![s@.take(k as int)] + comma_pieces(s@.skip(k + 1)));
                assert(comma_pieces(s@).map_values(|p: Seq<char>| trimmed(p)) =~= seq![trimmed(head@)]
                    + comma_pieces(tail@).map_values(|p: Seq<char>| trimmed(p)));
            }
            r
        },
    }
}

/// Reads the first line of a `for` loop (see `for_header`): its variables
/// and the text iterated over; a syntax error at `line` for a line that is
/// no `for` line or that has no single ` in `. The line `for do` is left
/// out.
pub fn parse_for_header(first_line: &str, line: usize) -> (r: Result<(Vec<String>, String), DataCodeError>)
    requires
        trimmed(first_line@) != seq!['f', 'o', 'r', ' ', 'd', 'o'],
    ensures
        match for_header(first_line@) {
            ForHeader::NotFor => syntax_error_with(r, "Invalid for loop syntax"@, line),
            ForHeader::NoSingleIn => syntax_error_with(r, "Invalid for syntax: expected 'for variable in iterable do'"@, line),
            ForHeader::Header(vars, iter) => r matches Ok((v, i)) && texts(v@) == vars && i@ == iter,
        },
{
    let c = chars_of(first_line);
    let t = trim(c.as_slice());
    if !(starts_with(t.as_slice(), &['f', 'o', 'r', ' ']) && ends_with(t.as_slice(), &[' ', 'd', 'o'])) {
        proof {
            if t@.len() >= 4 && t@.take(4) == seq!['f', 'o', 'r', ' '] && t@.len() >= 3 {
                assert(t@.take(4) == t@.subrange(0, 4));
                assert(t@.skip(t@.len() - 3) == t@.subrange(t@.len() - 3, t@.len() as int));
            }
        }
        return Err(DataCodeError::syntax_error(owned("Invalid for loop syntax"), line, 0));
    }
    proof {
        assert(t@.take(4) == t@.subrange(0, 4));
        assert(t@.skip(t@.len() - 3) == t@.subrange(t@.len() - 3, t@.len() as int));
        if t@.len() < 7 {
            assert(t@.len() == 6) by {
                if t@.len() <= 5 {
                    assert(t@.subrange(t@.len() - 3, t@.len() as int)[0] == ' ');
                    assert(t@.subrange(0, 4)[t@.len() - 3] == t@[t@.len() - 3]);
                }
            }
            assert(t@ =~= seq!['f', 'o', 'r', ' ', 'd', 'o']);
        }
    }
    let body = slice_chars(t.as_slice(), 4, t.len() - 3);
    let pat = vec![' ', 'i', 'n', ' '];
    assert(pat@ =~= seq![' ', 'i', 'n', ' ']);
    let at = match find_pattern(&body, &pat, 0) {
        Some(k) => k,
        None => {
            return Err(DataCodeError::syntax_error(
                owned("Invalid for syntax: expected 'for variable in iterable do'"),
                line,
                0,
            ));
        },
    };
    if find_pattern(&body, &pat, at + 4).is_some() {
        return Err(DataCodeError::syntax_error(
            owned("Invalid for syntax: expected 'for variable in iterable do'"),
            line,
            0,
        ));
    }
    let vars_part = slice_chars(body.as_slice(), 0, at);
    assert(vars_part@ =~= body@.take(at as int));
    let vars_trimmed = trim(vars_part.as_slice());
    let vars = trimmed_comma_pieces(&vars_trimmed);
    let iter_part = slice_chars(body.as_slice(), at + 4, body.len());
    assert(iter_part@ =~= body@.skip(at + 4));
    let iter = trim(iter_part.as_slice());
    Ok((vars, string_of(iter.as_slice())))
}

/// The body of a `for` loop whose variables start with `first`, from line
/// `i` on: lines inside `try` and `if` blocks are taken whole; a nested
/// `for` opens a loop (`stack` holds their variables, innermost last) and
/// the `next` of the innermost one closes it; a `next` for `first` (by the
/// part of its variable before a comma) when it closes no nested loop ends
/// the body; any other line is taken.
pub open spec fn body_scan(
    ls: Seq<Seq<char>>,
    i: int,
    stack: Seq<Seq<char>>,
    tries: nat,
    ifs: nat,
    acc: Seq<Seq<char>>,
    first: Seq<char>,
) -> Seq<Seq<char>>
    decreases ls.len() - i,
{
    if !(0 <= i < ls.len()) {
        acc
    } else {
        let line = ls[i];
        let t = trimmed(line);
        let taken = acc.push(line);
        if t == seq!['t', 'r', 'y'] {
            body_scan(ls, i + 1, stack, tries + 1, ifs, taken, first)
        } else if t == seq!['e', 'n', 'd', 't', 'r', 'y'] {
            body_scan(ls, i + 1, stack, if tries > 0 { (tries - 1) as nat } else { 0 }, ifs, taken, first)
        } else if has_prefix(t, seq!['c', 'a', 't', 'c', 'h']) && tries > 0 {
            body_scan(ls, i + 1, stack, tries, ifs, taken, first)
        } else if opens_if(t) {
            body_scan(ls, i + 1, stack, tries, ifs + 1, taken, first)
        } else if closes_if(t) {
            body_scan(ls, i + 1, stack, tries, if ifs > 0 { (ifs - 1) as nat } else { 0 }, taken, first)
        } else if tries > 0 || ifs > 0 {
            body_scan(ls, i + 1, stack, tries, ifs, taken, first)
        } else if is_for_line(t) {
            let stack2 = match for_variable(t) {
                Some(v) => stack.push(v),
                None => stack,
            };
            body_scan(ls, i + 1, stack2, tries, ifs, taken, first)
        } else {
            match next_variable(t) {
                Some(nv) => {
                    let nf = trimmed(before_comma(nv));
                    if stack.len() > 0 && nf == stack.last() {
                        body_scan(ls, i + 1, stack.drop_last(), tries, ifs, taken, first)
                    } else if nf == first {
                        acc
                    } else {
                        body_scan(ls, i + 1, stack, tries, ifs, taken, first)
                    }
                },
                None => body_scan(ls, i + 1, stack, tries, ifs, taken, first),
            }
        }
    }
}

/// The body of the `for` loop whose lines are `for_lines` and whose first
/// variable is `first` (see `body_scan`, from the second line on). A line
/// `for do` is left out.
pub fn for_loop_body(for_lines: &[String], first: &str) -> (r: Vec<String>)
    requires
        forall|k: int| 0 <= k < for_lines@.len() ==> trimmed(#[trigger] texts(for_lines@)[k]) != seq!['f', 'o', 'r', ' ', 'd', 'o'],
    ensures
        texts(r@) == body_scan(texts(for_lines@), 1, Seq::empty(), 0, 0, Seq::empty(), first@),
{
    let ghost ls = texts(for_lines@);
    let mut body: Vec<String> = Vec::new();
    let mut stack: Vec<String> = Vec::new();
    let mut tries: usize = 0;
    let mut ifs: usize = 0;
    let n = for_lines.len();
    let mut i: usize = 1;
    proof {
        assert(texts(body@) =~= Seq::<Seq<char>>::empty());
        assert(texts(stack@) =~= Seq::<Seq<char>>::empty());
    }
    while i < n
        invariant
            1 <= i,
            n == for_lines@.len(),
            ls == texts(for_lines@),
            tries <= i,
            ifs <= i,
            forall|k: int| 0 <= k < for_lines@.len() ==> trimmed(#[trigger] texts(for_lines@)[k]) != seq!['f', 'o', 'r', ' ', 'd', 'o'],
            body_scan(ls, i as int, texts(stack@), tries as nat, ifs as nat, texts(body@), first@)
                == body_scan(ls, 1, Seq::empty(), 0, 0, Seq::empty(), first@),
        decreases n - i,
    {
        proof { assert(for_lines@[i as int]@ == ls[i as int]); }
        let t = trimmed_line(for_lines, i);
        let ghost before = body@;
        let ghost taken = texts(body@).push(ls[i as int]);
        if is_word(&t, &['t', 'r', 'y']) {
            tries = tries + 1;
        } else if is_word(&t, &['e', 'n', 'd', 't', 'r', 'y']) {
            if tries > 0 {
                tries = tries - 1;
            }
        } else if starts_with(t.as_slice(), &['c', 'a', 't', 'c', 'h']) && tries > 0 {
        } else if opens_if_line(&t) {
            ifs = ifs + 1;
        } else if closes_if_line(&t) {
            if ifs > 0 {
                ifs = ifs - 1;
            }
        } else if tries > 0 || ifs > 0 {
        } else {
            let text = string_of(t.as_slice());
            proof { lemma_trimmed_twice(ls[i as int]); }
            if starts_with(t.as_slice(), &['f', 'o', 'r', ' ']) && ends_with(t.as_slice(), &[' ', 'd', 'o']) {
                proof {
                    assert(t@.take(4) == t@.subrange(0, 4));
                    assert(t@.skip(t@.len() - 3) == t@.subrange(t@.len() - 3, t@.len() as int));
                }
                match parse_for_variable(text.as_str()) {
                    Some(v) => {
                        proof { lemma_texts_push(stack@, v); }
                        stack.push(v);
                    },
                    None => {},
                }
            } else {
                proof {
                    if t@.len() >= 4 && t@.take(4) == seq!['f', 'o', 'r', ' '] && t@.len() >= 3 {
                        assert(t@.take(4) == t@.subrange(0, 4));
                        assert(t@.skip(t@.len() - 3) == t@.subrange(t@.len() - 3, t@.len() as int));
                    }
                }
                match parse_next_variable(text.as_str()) {
                    Some(nv) => {
                        let head = first_before_comma(nv.as_str());
                        let closes_nested = stack.len() > 0 && str_eq(head.as_str(), stack[stack.len() - 1].as_str());
                        if closes_nested {
                            proof { assert(texts(stack@).last() == stack@[stack@.len() - 1]@); }
                            let ghost prev = stack@;
                            stack.pop();
                            proof { assert(texts(stack@) =~= texts(prev).drop_last()); }
                        } else if str_eq(head.as_str(), first) {
                            proof {
                                if stack@.len() > 0 {
                                    assert(texts(stack@).last() == stack@[stack@.len() - 1]@);
                                }
                            }
                            return body;
                        } else {
                            proof {
                                if stack@.len() > 0 {
                                    assert(texts(stack@).last() == stack@[stack@.len() - 1]@);
                                }
                            }
                        }
                    },
                    None => {},
                }
            }
        }
        proof { lemma_texts_push(body@, for_lines@[i as int]); }
        body.push(for_lines[i].clone());
        i = i + 1;
    }
    body
}

/// Joined lines are no shorter than the join of a prefix of them.
proof fn lemma_joined_prefix(ls: Seq<Seq<char>>, k: int)
    requires
        0 <= k <= ls.len(),
    ensures
        lines_joined(ls.take(k)).len() <= lines_joined(ls).len(),
    decreases ls.len(),
{
    if k < ls.len() {
        let d = ls.drop_last();
        lemma_joined_prefix(d, k);
        assert(d.take(k) =~= ls.take(k));
        if ls.len() >= 2 {
            assert(lines_joined(ls) == lines_joined(d) + "\n"@ + ls.last());
        } else {
            assert(k == 0);
            assert(ls.take(0) =~= Seq::<Seq<char>>::empty());
        }
    } else {
        assert(ls.take(k) =~= ls);
    }
}

/// The index of the line that completes the declaration starting at line
/// `start` (see `is_incomplete_assignment`): the first line from the one
/// after it on whose joining with the lines before it, from `start`, is no
/// longer incomplete; or the number of lines.
pub open spec fn assignment_end(ls: Seq<Seq<char>>, start: int, i: int) -> int
    decreases ls.len() - i,
{
    if !(0 <= i < ls.len()) {
        ls.len() as int
    } else if !incomplete_assignment(lines_joined(ls.subrange(start, i + 1))) {
        i
    } else {
        assignment_end(ls, start, i + 1)
    }
}

/// The index of the line that completes the declaration starting at line
/// `start` (see `assignment_end`).
pub fn multiline_assignment_end(lines: &[String], start: usize) -> (r: usize)
    requires
        start < lines@.len(),
        lines_joined(texts(lines@).subrange(start as int, lines@.len() as int)).len() < 0x7fff_ffff,
    ensures
        r == assignment_end(texts(lines@), start as int, start + 1),
{
    let ghost ls = texts(lines@);
    let n = lines.len();
    let mut combined = lines[start].clone();
    proof {
        assert(ls.subrange(start as int, start + 1) =~= seq![ls[start as int]]);
        assert(lines@[start as int]@ == ls[start as int]);
    }
    let mut i = start + 1;
    while i < n
        invariant
            start < i <= n,
            n == lines@.len(),
            ls == texts(lines@),
            lines_joined(ls.subrange(start as int, n as int)).len() < 0x7fff_ffff,
            combined@ == lines_joined(ls.subrange(start as int, i as int)),
            assignment_end(ls, start as int, i as int) == assignment_end(ls, start as int, start + 1),
        decreases n - i,
    {
        push_string(&mut combined, "\n");
        push_string(&mut combined, lines[i].as_str());
        proof {
            let part = ls.subrange(start as int, i + 1);
            assert(part.drop_last() =~= ls.subrange(start as int, i as int));
            assert(part.last() == lines@[i as int]@);
            assert(part.len() >= 2);
            assert(combined@ == lines_joined(part));
            let whole = ls.subrange(start as int, n as int);
            assert(whole.take(i + 1 - start) =~= part);
            lemma_joined_prefix(whole, i + 1 - start);
        }
        if !is_incomplete_assignment(combined.as_str()) {
            return i;
        }
        i = i + 1;
    }
    i
}


/// The section of a `try` statement that its lines go to.
#[derive(Debug, Clone, Copy, PartialEq, Eq, Structural)]
pub enum TrySection {
    Try,
    Catch,
    Finally,
}

/// The state of splitting a `try` statement: the section being read, the
/// nesting of inner `try` blocks, and the parts read so far.
pub struct TryScan {
    pub section: TrySection,
    pub depth: nat,
    pub try_body: Seq<Seq<char>>,
    pub catch_var: Option<Seq<char>>,
    pub catch_body: Seq<Seq<char>>,
    pub finally_body: Seq<Seq<char>>,
}

/// Adds a line to the section being read.
pub open spec fn try_add(st: TryScan, line: Seq<char>) -> TryScan {
    match st.section {
        TrySection::Try => TryScan { try_body: st.try_body.push(line), ..st },
        TrySection::Catch => TryScan { catch_body: st.catch_body.push(line), ..st },
        TrySection::Finally => TryScan { finally_body: st.finally_body.push(line), ..st },
    }
}

/// Splits the lines of a `try` statement from line `i` on: an inner `try`
/// nests one level deeper, and an `endtry` one level less (the `endtry` at
/// no depth ends the statement); an inner `try`, and an inner `endtry` that
/// leaves a nesting, also go to the `try` part when it is being read. At no
/// depth, a line starting with `catch` opens the `catch` part (what follows
/// `catch`, trimmed, names the error when it is not empty), and `finally`
/// the `finally` part. Any other line goes to the part being read.
pub open spec fn try_scan(ls: Seq<Seq<char>>, i: int, st: TryScan) -> TryScan
    decreases ls.len() - i,
{
    if !(0 <= i < ls.len()) {
        st
    } else {
        let t = trimmed(ls[i]);
        if t == seq!['t', 'r', 'y'] {
            let st2 = TryScan { depth: st.depth + 1, ..st };
            try_scan(ls, i + 1, if st.section == TrySection::Try { try_add(st2, ls[i]) } else { st2 })
        } else if t == seq!['e', 'n', 'd', 't', 'r', 'y'] {
            if st.depth > 0 {
                let st2 = TryScan { depth: (st.depth - 1) as nat, ..st };
                try_scan(ls, i + 1, if st.section == TrySection::Try && st2.depth > 0 { try_add(st2, ls[i]) } else { st2 })
            } else {
                st
            }
        } else if has_prefix(t, seq!['c', 'a', 't', 'c', 'h']) && st.depth == 0 {
            let v = trimmed(t.skip(5));
            try_scan(ls, i + 1, TryScan {
                section: TrySection::Catch,
                catch_var: if v.len() > 0 { Some(v) } else { st.catch_var },
                ..st
            })
        } else if t == seq!['f', 'i', 'n', 'a', 'l', 'l', 'y'] && st.depth == 0 {
            try_scan(ls, i + 1, TryScan { section: TrySection::Finally, ..st })
        } else {
            try_scan(ls, i + 1, try_add(st, ls[i]))
        }
    }
}

/// The parts of a `try` statement whose lines are `ls` (the first line,
/// `try`, left out; see `try_scan`).
pub open spec fn try_parts(ls: Seq<Seq<char>>) -> TryScan {
    try_scan(ls, 1, TryScan {
        section: TrySection::Try,
        depth: 0,
        try_body: Seq::empty(),
        catch_var: None,
        catch_body: Seq::empty(),
        finally_body: Seq::empty(),
    })
}

/// The parts of a `try` statement.
pub struct TryStatementParts {
    pub try_body: Vec<String>,
    pub catch_var: Option<String>,
    pub catch_body: Vec<String>,
    pub finally_body: Vec<String>,
}

/// The view of an optional text.
pub open spec fn optional_text(v: Option<String>) -> Option<Seq<char>> {
    match v {
        Some(s) => Some(s@),
        None => None,
    }
}

/// The splitting state held in these variables.
pub open spec fn try_view(section: TrySection, depth: usize, p: TryStatementParts) -> TryScan {
    TryScan {
        section,
        depth: depth as nat,
        try_body: texts(p.try_body@),
        catch_var: optional_text(p.catch_var),
        catch_body: texts(p.catch_body@),
        finally_body: texts(p.finally_body@),
    }
}

/// Adds a line to the section being read (see `try_add`).
fn add_to_section(p: &mut TryStatementParts, section: TrySection, line: String)
    ensures
        try_view(section, 0, *final(p)) == try_add(try_view(section, 0, *old(p)), line@),
{
    match section {
        TrySection::Try => {
            proof { lemma_texts_push(p.try_body@, line); }
            p.try_body.push(line);
        },
        TrySection::Catch => {
            proof { lemma_texts_push(p.catch_body@, line); }
            p.catch_body.push(line);
        },
        TrySection::Finally => {
            proof { lemma_texts_push(p.finally_body@, line); }
            p.finally_body.push(line);
        },
    }
}

/// Splits the lines of a `try` statement into its parts (see `try_parts`).
pub fn split_try_statement(try_lines: &[String]) -> (r: TryStatementParts)
    ensures
        try_view(TrySection::Try, 0, r) == (TryScan { section: TrySection::Try, depth: 0, ..try_parts(texts(try_lines@)) }),
{
    let ghost ls = texts(try_lines@);
    let n = try_lines.len();
    let mut p = TryStatementParts {
        try_body: Vec::new(),
        catch_var: None,
        catch_body: Vec::new(),
        finally_body: Vec::new(),
    };
    let mut section = TrySection::Try;
    let mut depth: usize = 0;
    let mut i: usize = 1;
    proof {
        assert(texts(p.try_body@) =~= Seq::<Seq<char>>::empty());
        assert(texts(p.catch_body@) =~= Seq::<Seq<char>>::empty());
        assert(texts(p.finally_body@) =~= Seq::<Seq<char>>::empty());
        if n == 0 {
            assert(try_parts(ls) == try_view(section, depth, p));
        }
    }
    while i < n
        invariant
            1 <= i,
            n == try_lines@.len(),
            ls == texts(try_lines@),
            depth <= i,
            try_scan(ls, i as int, try_view(section, depth, p)) == try_parts(ls),
        decreases n - i,
    {
        proof { assert(try_lines@[i as int]@ == ls[i as int]); }
        let t = trimmed_line(try_lines, i);
        let ghost before = try_view(section, depth, p);
        if is_word(&t, &['t', 'r', 'y']) {
            depth = depth + 1;
            if section == TrySection::Try {
                proof { lemma_texts_push(p.try_body@, try_lines@[i as int]); }
                p.try_body.push(try_lines[i].clone());
            }
        } else if is_word(&t, &['e', 'n', 'd', 't', 'r', 'y']) {
            if depth == 0 {
                return p;
            }
            depth = depth - 1;
            if section == TrySection::Try && depth > 0 {
                proof { lemma_texts_push(p.try_body@, try_lines@[i as int]); }
                p.try_body.push(try_lines[i].clone());
            }
        } else if starts_with(t.as_slice(), &['c', 'a', 't', 'c', 'h']) && depth == 0 {
            section = TrySection::Catch;
            let rest = slice_chars(t.as_slice(), 5, t.len());
            assert(rest@ =~= t@.skip(5));
            let v = trim(rest.as_slice());
            if v.len() > 0 {
                p.catch_var = Some(string_of(v.as_slice()));
            }
        } else if is_word(&t, &['f', 'i', 'n', 'a', 'l', 'l', 'y']) && depth == 0 {
            section = TrySection::Finally;
        } else {
            add_to_section(&mut p, section, try_lines[i].clone());
        }
        i = i + 1;
    }
    p
}


/// The lines of a function's body: the lines after the first, up to the
/// first `endfunction` line.
pub open spec fn function_body_lines(ls: Seq<Seq<char>>, i: int) -> Seq<Seq<char>>
    decreases ls.len() - i,
{
    if !(1 <= i < ls.len()) || trimmed(ls[i]) == seq!['e', 'n', 'd', 'f', 'u', 'n', 'c', 't', 'i', 'o', 'n'] {
        Seq::empty()
    } else {
        seq![ls[i]] + function_body_lines(ls, i + 1)
    }
}

/// The parameters written between the brackets of a function's header:
/// none when that is blank, else the pieces between commas, trimmed.
pub open spec fn header_params(p: Seq<char>) -> Seq<Seq<char>> {
    if trimmed(p).len() == 0 {
        Seq::empty()
    } else {
        comma_pieces(p).map_values(|x: Seq<char>| trimmed(x))
    }
}

/// The name and parameters of a function's signature (the header without
/// its prefix and its ` do`): the name before the first `(`, trimmed, and
/// the parameters between it and a final `)`.
pub open spec fn signature_parts(sig: Seq<char>) -> Result<(Seq<char>, Seq<Seq<char>>), Seq<char>> {
    match find_from(sig, seq!['('], 0) {
        None => Err("Missing parentheses in function definition"@),
        Some(p) => {
            let part = sig.skip(p);
            if !has_suffix(part, seq![')']) {
                Err("Missing closing parenthesis in function definition"@)
            } else {
                Ok((trimmed(sig.take(p)), header_params(part.subrange(1, part.len() - 1))))
            }
        },
    }
}

/// A function definition's lines read as a function: `global function `,
/// `local function ` (not global) or `function ` before the signature,
/// which ends with ` do` (see `signature_parts`); the body up to
/// `endfunction` (see `function_body_lines`).
pub open spec fn function_definition(ls: Seq<Seq<char>>) -> Result<(Seq<char>, Seq<Seq<char>>, Seq<Seq<char>>, bool), Seq<char>> {
    if ls.len() == 0 {
        Err("Empty function definition"@)
    } else {
        let t = trimmed(ls[0]);
        let g = seq!['g', 'l', 'o', 'b', 'a', 'l', ' ', 'f', 'u', 'n', 'c', 't', 'i', 'o', 'n', ' '];
        let l = seq!['l', 'o', 'c', 'a', 'l', ' ', 'f', 'u', 'n', 'c', 't', 'i', 'o', 'n', ' '];
        let f = seq!['f', 'u', 'n', 'c', 't', 'i', 'o', 'n', ' '];
        let (ok, global, part) = if has_prefix(t, g) {
            (true, true, t.skip(16))
        } else if has_prefix(t, l) {
            (true, false, t.skip(15))
        } else if has_prefix(t, f) {
            (true, true, t.skip(9))
        } else {
            (false, false, t)
        };
        if !ok {
            Err("Invalid function definition"@)
        } else if !has_suffix(part, seq![' ', 'd', 'o']) {
            Err("Function definition must end with 'do'"@)
        } else {
            match signature_parts(part.take(part.len() - 3)) {
                Err(m) => Err(m),
                Ok((name, params)) => Ok((name, params, function_body_lines(ls, 1), global)),
            }
        }
    }
}

/// What `find_from` finds is an occurrence of the pattern.
proof fn lemma_found_occurs(s: Seq<char>, pat: Seq<char>, from: int)
    ensures
        find_from(s, pat, from) matches Some(i) ==> 0 <= i && i + pat.len() <= s.len() && s.subrange(i, i + pat.len()) == pat,
    decreases s.len() + 1 - from,
{
    if from < 0 || from + pat.len() > s.len() {
    } else if s.subrange(from, from + pat.len()) == pat {
    } else {
        lemma_found_occurs(s, pat, from + 1);
    }
}

/// A function read from its definition's lines (see `function_definition`);
/// a syntax error at `line` for a malformed header.
pub fn parse_function_definition(function_lines: &[String], line: usize) -> (r: Result<UserFunction, DataCodeError>)
    ensures
        match function_definition(texts(function_lines@)) {
            Ok((name, params, body, global)) => r matches Ok(f) && f.name@ == name && texts(f.parameters@) == params
                && texts(f.body@) == body && f.is_global == global,
            Err(m) => syntax_error_with(r, m, line),
        },
{
    let ghost ls = texts(function_lines@);
    if function_lines.len() == 0 {
        return Err(DataCodeError::syntax_error(owned("Empty function definition"), line, 0));
    }
    proof { assert(function_lines@[0]@ == ls[0]); }
    let t = trimmed_line(function_lines, 0);
    let n = t.len();
    let (global, from): (bool, usize) = if starts_with(t.as_slice(), &['g', 'l', 'o', 'b', 'a', 'l', ' ', 'f', 'u', 'n', 'c', 't', 'i', 'o', 'n', ' ']) {
        (true, 16)
    } else if starts_with(t.as_slice(), &['l', 'o', 'c', 'a', 'l', ' ', 'f', 'u', 'n', 'c', 't', 'i', 'o', 'n', ' ']) {
        (false, 15)
    } else if starts_with(t.as_slice(), &['f', 'u', 'n', 'c', 't', 'i', 'o', 'n', ' ']) {
        (true, 9)
    } else {
        return Err(DataCodeError::syntax_error(owned("Invalid function definition"), line, 0));
    };
    let part = slice_chars(t.as_slice(), from, n);
    assert(part@ =~= t@.skip(from as int));
    if !ends_with(part.as_slice(), &[' ', 'd', 'o']) {
        return Err(DataCodeError::syntax_error(owned("Function definition must end with 'do'"), line, 0));
    }
    let sig = slice_chars(part.as_slice(), 0, part.len() - 3);
    assert(sig@ =~= part@.take(part@.len() - 3));
    let open = vec!['('];
    assert(open@ =~= seq!['(']);
    let p = match find_pattern(&sig, &open, 0) {
        Some(p) => p,
        None => return Err(DataCodeError::syntax_error(owned("Missing parentheses in function definition"), line, 0)),
    };
    let sn = sig.len();
    let pp = slice_chars(sig.as_slice(), p, sn);
    assert(pp@ =~= sig@.skip(p as int));
    let close = vec![')'];
    assert(close@ =~= seq![')']);
    if !ends_with(pp.as_slice(), close.as_slice()) {
        return Err(DataCodeError::syntax_error(owned("Missing closing parenthesis in function definition"), line, 0));
    }
    let name_part = slice_chars(sig.as_slice(), 0, p);
    assert(name_part@ =~= sig@.take(p as int));
    let name = trim(name_part.as_slice());
    proof {
        lemma_found_occurs(sig@, seq!['('], 0);
        assert(sig@.subrange(p as int, p + 1)[0] == '(');
        assert(pp@[0] == '(');
        assert(pp@[pp@.len() - 1] == ')');
    }
    let inner = slice_chars(pp.as_slice(), 1, pp.len() - 1);
    let it = trim(inner.as_slice());
    let params: Vec<String> = if it.len() == 0 {
        let v: Vec<String> = Vec::new();
        assert(texts(v@) =~= Seq::<Seq<char>>::empty());
        v
    } else {
        trimmed_comma_pieces(&inner)
    };
    let mut body: Vec<String> = Vec::new();
    let mut i: usize = 1;
    proof { assert(texts(body@) =~= Seq::<Seq<char>>::empty()); }
    while i < function_lines.len()
        invariant
            1 <= i <= function_lines@.len(),
            ls == texts(function_lines@),
            function_body_lines(ls, 1) == texts(body@) + function_body_lines(ls, i as int),
        ensures
            function_body_lines(ls, 1) == texts(body@),
        decreases function_lines.len() - i,
    {
        proof { assert(function_lines@[i as int]@ == ls[i as int]); }
        let li = trimmed_line(function_lines, i);
        if is_word(&li, &['e', 'n', 'd', 'f', 'u', 'n', 'c', 't', 'i', 'o', 'n']) {
            proof {
                assert(function_body_lines(ls, i as int) == Seq::<Seq<char>>::empty());
                assert(texts(body@) + Seq::<Seq<char>>::empty() =~= texts(body@));
            }
            break;
        }
        proof {
            lemma_texts_push(body@, function_lines@[i as int]);
            assert(function_body_lines(ls, i as int) == seq![ls[i as int]] + function_body_lines(ls, i + 1));
            assert(texts(body@.push(function_lines@[i as int])) + function_body_lines(ls, i + 1)
                =~= texts(body@) + function_body_lines(ls, i as int));
        }
        body.push(function_lines[i].clone());
        i = i + 1;
    }
    proof {
        assert(texts(params@) == header_params(inner@));
        assert(signature_parts(sig@) == Ok::<(Seq<char>, Seq<Seq<char>>), Seq<char>>((name@, texts(params@))));
        assert(function_definition(ls) == Ok::<(Seq<char>, Seq<Seq<char>>, Seq<Seq<char>>, bool), Seq<char>>((name@, texts(params@), texts(body@), global)));
    }
    Ok(UserFunction::new(string_of(name.as_slice()), params, body, global))
}

} // verus!
