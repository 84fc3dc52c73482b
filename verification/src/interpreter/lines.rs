//! What a single line does when it is run on its own: skipped, `break`,
//! `throw`, `print`, `return`, a declaration, an assignment, or an
//! expression to evaluate, with the syntax errors found on the way.
use vstd::prelude::*;
use crate::error::DataCodeError;
use crate::parser::lexer::word_is;
use crate::repl::{has_prefix, has_suffix};
use crate::text::{alphanumeric, chars_of, ends_with, is_alnum, owned, slice_chars, starts_with, string_of, trim, trimmed};
use super::blocks::{starts_function, syntax_error_with};
use super::execution::{find_from, find_pattern, split_args, split_at_commas, string_texts};

verus! {

/// What a line does.
#[derive(Debug)]
pub enum LineStatement {
    /// Nothing: a blank line, a comment, or a line that the block runner
    /// handles.
    Skip,
    /// `break`.
    Break,
    /// `throw` and the expression thrown.
    Throw(String),
    /// `print(...)` and the texts of its arguments.
    Print(Vec<String>),
    /// `return` and the expression returned (empty: none).
    Return(String),
    /// A `global` (`true`) or `local` (`false`) declaration: the name and
    /// the expression.
    Declare(bool, String, String),
    /// An assignment to a name without `global` or `local`: the name and the
    /// expression.
    Assign(String, String),
    /// Any other line: an expression to evaluate.
    Expression(String),
}

/// A line's statement as the specifications see it.
pub enum StatementView {
    Skip,
    Break,
    Throw(Seq<char>),
    Print(Seq<Seq<char>>),
    Return(Seq<char>),
    Declare(bool, Seq<char>, Seq<char>),
    Assign(Seq<char>, Seq<char>),
    Expression(Seq<char>),
}

impl View for LineStatement {
    type V = StatementView;

    open spec fn view(&self) -> StatementView {
        match self {
            LineStatement::Skip => StatementView::Skip,
            LineStatement::Break => StatementView::Break,
            LineStatement::Throw(e) => StatementView::Throw(e@),
            LineStatement::Print(v) => StatementView::Print(string_texts(v@)),
            LineStatement::Return(e) => StatementView::Return(e@),
            LineStatement::Declare(g, n, e) => StatementView::Declare(*g, n@, e@),
            LineStatement::Assign(n, e) => StatementView::Assign(n@, e@),
            LineStatement::Expression(e) => StatementView::Expression(e@),
        }
    }
}

/// A statement or an error message, as the specifications see it.
pub open spec fn outcome(x: Result<LineStatement, String>) -> Result<StatementView, Seq<char>> {
    match x {
        Ok(s) => Ok(s@),
        Err(m) => Err(m@),
    }
}

/// The last index of `c` in `s`.
pub open spec fn last_index(s: Seq<char>, c: char) -> Option<int>
    decreases s.len(),
{
    if s.len() == 0 {
        None
    } else if s.last() == c {
        Some(s.len() - 1)
    } else {
        last_index(s.drop_last(), c)
    }
}

/// The argument text of a trimmed `print(...)` line: what stands between
/// `print(` and the last `)`.
pub open spec fn print_content(t: Seq<char>) -> Option<Seq<char>> {
    if has_prefix(t, seq!['p', 'r', 'i', 'n', 't', '(']) {
        let rest = t.skip(6);
        match last_index(rest, ')') {
            Some(p) => Some(rest.take(p)),
            None => None,
        }
    } else {
        None
    }
}

/// The statement of a `print` whose argument text is `content`: its
/// arguments split at commas outside strings and brackets (see
/// `split_args`); when `strict`, a text that is not blank but has no
/// argument is an error.
pub open spec fn print_statement(content: Seq<char>, strict: bool) -> Result<StatementView, Seq<char>> {
    if trimmed(content).len() == 0 {
        Ok(StatementView::Print(Seq::empty()))
    } else if strict && split_args(content, true).len() == 0 {
        Err("print() requires at least one argument"@)
    } else {
        Ok(StatementView::Print(split_args(content, true)))
    }
}

/// The two sides of the first `=` of `s`, each trimmed.
pub open spec fn around_eq(s: Seq<char>) -> Option<(Seq<char>, Seq<char>)> {
    match find_from(s, seq!['='], 0) {
        Some(i) => Some((trimmed(s.take(i)), trimmed(s.skip(i + 1)))),
        None => None,
    }
}

/// The statement of a trimmed line that starts with `global ` or `local `:
/// a declaration of the name before the first `=` as the expression after
/// it, or an error when there is no `=`.
pub open spec fn declaration(t: Seq<char>) -> Option<Result<StatementView, Seq<char>>> {
    let global = has_prefix(t, seq!['g', 'l', 'o', 'b', 'a', 'l', ' ']);
    if global || has_prefix(t, seq!['l', 'o', 'c', 'a', 'l', ' ']) {
        let rest = if global { t.skip(7) } else { t.skip(6) };
        Some(
            match around_eq(rest) {
                Some((n, e)) => Ok(StatementView::Declare(global, n, e)),
                None => Err("Invalid assignment"@),
            },
        )
    } else {
        None
    }
}

/// A name: not empty, and made of alphanumeric characters and `_`.
pub open spec fn is_name(s: Seq<char>) -> bool {
    s.len() > 0 && forall|i: int| 0 <= i < s.len() ==> is_alnum(#[trigger] s[i]) || s[i] == '_'
}

/// None of `==`, `!=`, `<=`, `>=` occurs in `t`.
pub open spec fn comparison_free(t: Seq<char>) -> bool {
    &&& find_from(t, seq!['=', '='], 0) is None
    &&& find_from(t, seq!['!', '='], 0) is None
    &&& find_from(t, seq!['<', '='], 0) is None
    &&& find_from(t, seq!['>', '='], 0) is None
}

/// The name and expression of a trimmed line that assigns to a name: it has
/// an `=` and no comparison, and what stands before the first `=` is a name.
pub open spec fn plain_assignment(t: Seq<char>) -> Option<(Seq<char>, Seq<char>)> {
    if comparison_free(t) {
        match around_eq(t) {
            Some((n, e)) => if is_name(n) {
                Some((n, e))
            } else {
                None
            },
            None => None,
        }
    } else {
        None
    }
}

/// A trimmed line that only closes or continues a block.
pub open spec fn block_word(t: Seq<char>) -> bool {
    ||| t == seq!['t', 'r', 'y']
    ||| t == seq!['c', 'a', 't', 'c', 'h']
    ||| t == seq!['f', 'i', 'n', 'a', 'l', 'l', 'y']
    ||| t == seq!['e', 'n', 'd', 't', 'r', 'y']
    ||| t == seq!['e', 'l', 's', 'e']
    ||| t == seq!['e', 'n', 'd', 'i', 'f']
    ||| t == seq!['e', 'n', 'd', 'e', 'i', 'f']
    ||| t == seq!['e', 'n', 'd', 'f', 'u', 'n', 'c', 't', 'i', 'o', 'n']
}

/// A trimmed `for ... do` line.
pub open spec fn for_do(t: Seq<char>) -> bool {
    has_prefix(t, seq!['f', 'o', 'r', ' ']) && has_suffix(t, seq![' ', 'd', 'o'])
}

/// What a line does when it is run on its own, checked in this order: a
/// blank line, a comment, a `next` line, a function definition, an `if` or
/// `for ... do` line and a line that closes or continues a block are
/// skipped; then `break`, `throw`, `print(...)` (see `print_statement`),
/// `return` (an error outside a function), a declaration (see
/// `declaration`), an assignment (see `plain_assignment`), and any other
/// line is an expression.
pub open spec fn simple_line(code: Seq<char>, in_function: bool) -> Result<StatementView, Seq<char>> {
    let t = trimmed(code);
    if t.len() == 0 || t[0] == '#' || has_prefix(t, seq!['n', 'e', 'x', 't', ' ']) {
        Ok(StatementView::Skip)
    } else if t == seq!['b', 'r', 'e', 'a', 'k'] {
        Ok(StatementView::Break)
    } else if starts_function(t) || has_prefix(t, seq!['i', 'f', ' ']) || for_do(t) || block_word(t) {
        Ok(StatementView::Skip)
    } else if has_prefix(t, seq!['t', 'h', 'r', 'o', 'w', ' ']) {
        Ok(StatementView::Throw(trimmed(t.skip(6))))
    } else if print_content(t) is Some {
        print_statement(print_content(t).unwrap(), true)
    } else if has_prefix(t, seq!['r', 'e', 't', 'u', 'r', 'n']) {
        if in_function {
            Ok(StatementView::Return(trimmed(t.skip(6))))
        } else {
            Err("return statement must be inside a function"@)
        }
    } else if declaration(t) is Some {
        declaration(t).unwrap()
    } else if plain_assignment(t) is Some {
        Ok(StatementView::Assign(plain_assignment(t).unwrap().0, plain_assignment(t).unwrap().1))
    } else {
        Ok(StatementView::Expression(t))
    }
}

/// What a line does when it is run inside a block, checked in this order:
/// a blank line and a comment are skipped; `break` (an error outside a
/// loop); a line that closes or continues a block, a `next` line, and an
/// `if` or `for ... do` line are skipped; `return` (skipped when frames run
/// it, an error outside a function); a declaration, an assignment,
/// `print(...)` (see `print_statement`), `throw`, and any other line is an
/// expression.
pub open spec fn block_line(code: Seq<char>, in_function: bool, in_loop: bool, frames_return: bool) -> Result<
    StatementView,
    Seq<char>,
> {
    let t = trimmed(code);
    if t.len() == 0 || t[0] == '#' {
        Ok(StatementView::Skip)
    } else if t == seq!['b', 'r', 'e', 'a', 'k'] {
        if in_loop {
            Ok(StatementView::Break)
        } else {
            Err("break statement must be inside a loop"@)
        }
    } else if block_word(t) || has_prefix(t, seq!['n', 'e', 'x', 't', ' ']) || for_do(t) || has_prefix(
        t,
        seq!['i', 'f', ' '],
    ) {
        Ok(StatementView::Skip)
    } else if has_prefix(t, seq!['r', 'e', 't', 'u', 'r', 'n']) {
        if frames_return {
            Ok(StatementView::Skip)
        } else if in_function {
            Ok(StatementView::Return(trimmed(t.skip(6))))
        } else {
            Err("return statement must be inside a function"@)
        }
    } else if declaration(t) is Some {
        declaration(t).unwrap()
    } else if plain_assignment(t) is Some {
        Ok(StatementView::Assign(plain_assignment(t).unwrap().0, plain_assignment(t).unwrap().1))
    } else if print_content(t) is Some {
        print_statement(print_content(t).unwrap(), false)
    } else if has_prefix(t, seq!['t', 'h', 'r', 'o', 'w', ' ']) {
        Ok(StatementView::Throw(trimmed(t.skip(6))))
    } else {
        Ok(StatementView::Expression(t))
    }
}

/// The last index of `c` in `s` (see `last_index`).
fn last_index_of(s: &Vec<char>, c: char) -> (r: Option<usize>)
    ensures
        match r {
            Some(i) => last_index(s@, c) == Some(i as int) && i < s@.len(),
            None => last_index(s@, c) is None,
        },
{
    let mut k = s.len();
    assert(s@.take(k as int) =~= s@);
    while k > 0
        invariant
            k <= s@.len(),
            last_index(s@, c) == last_index(s@.take(k as int), c),
        decreases k,
    {
        let ghost p = s@.take(k as int);
        if s[k - 1] == c {
            assert(p.last() == c);
            return Some(k - 1);
        }
        assert(p.drop_last() =~= s@.take(k - 1));
        k = k - 1;
    }
    None
}

/// Whether `pat` occurs in `t`.
fn occurs(t: &Vec<char>, pat: &Vec<char>) -> (r: bool)
    requires
        pat@.len() > 0,
    ensures
        r == (find_from(t@, pat@, 0) is Some),
{
    find_pattern(t, pat, 0).is_some()
}

/// The two sides of the first `=` of `s`, trimmed (see `around_eq`).
fn around_eq_of(s: &Vec<char>) -> (r: Option<(String, String)>)
    ensures
        match around_eq(s@) {
            Some((n, e)) => r matches Some((a, b)) && a@ == n && b@ == e,
            None => r is None,
        },
{
    let eq = vec!['='];
    assert(eq@ =~= seq!['=']);
    match find_pattern(s, &eq, 0) {
        Some(i) => {
            let n = s.len();
            assert(i + eq@.len() <= n);
            let after: usize = i + 1;
            let before = slice_chars(s.as_slice(), 0, i);
            let rest = slice_chars(s.as_slice(), after, n);
            assert(before@ =~= s@.take(i as int));
            assert(rest@ =~= s@.skip(i + 1));
            let a = trim(before.as_slice());
            let b = trim(rest.as_slice());
            Some((string_of(a.as_slice()), string_of(b.as_slice())))
        },
        None => None,
    }
}

/// Whether `s` is a name (see `is_name`).
fn is_name_text(s: &Vec<char>) -> (r: bool)
    ensures
        r == is_name(s@),
{
    if s.len() == 0 {
        return false;
    }
    let mut i: usize = 0;
    while i < s.len()
        invariant
            i <= s@.len(),
            forall|j: int| 0 <= j < i ==> is_alnum(#[trigger] s@[j]) || s@[j] == '_',
        decreases s.len() - i,
    {
        let c = s[i];
        if !(alphanumeric(c) || c == '_') {
            assert(!(is_alnum(s@[i as int]) || s@[i as int] == '_'));
            return false;
        }
        i = i + 1;
    }
    true
}

/// The statement of a trimmed `print(...)` line (see `print_content` and
/// `print_statement`); `None` for any other line.
fn print_statement_of(t: &Vec<char>, strict: bool) -> (r: Option<Result<LineStatement, String>>)
    requires
        t@.len() < 0x7fff_ffff,
    ensures
        match print_content(t@) {
            Some(c) => r matches Some(x) && outcome(x) == print_statement(c, strict),
            None => r is None,
        },
{
    if !starts_with(t.as_slice(), &['p', 'r', 'i', 'n', 't', '(']) {
        return None;
    }
    let n = t.len();
    let rest = slice_chars(t.as_slice(), 6, n);
    assert(rest@ =~= t@.skip(6));
    match last_index_of(&rest, ')') {
        None => None,
        Some(p) => {
            let content = slice_chars(rest.as_slice(), 0, p);
            assert(content@ =~= rest@.take(p as int));
            let ct = trim(content.as_slice());
            if ct.len() == 0 {
                let none: Vec<String> = Vec::new();
                assert(string_texts(none@) =~= Seq::<Seq<char>>::empty());
                return Some(Ok(LineStatement::Print(none)));
            }
            let args = split_at_commas(&content, true);
            if strict && args.len() == 0 {
                return Some(Err(owned("print() requires at least one argument")));
            }
            Some(Ok(LineStatement::Print(args)))
        },
    }
}

/// The statement of a trimmed declaration line (see `declaration`); `None`
/// for any other line.
fn declaration_of(t: &Vec<char>) -> (r: Option<Result<LineStatement, String>>)
    ensures
        match declaration(t@) {
            Some(d) => r matches Some(x) && outcome(x) == d,
            None => r is None,
        },
{
    let global = starts_with(t.as_slice(), &['g', 'l', 'o', 'b', 'a', 'l', ' ']);
    if !global && !starts_with(t.as_slice(), &['l', 'o', 'c', 'a', 'l', ' ']) {
        return None;
    }
    let n = t.len();
    let from: usize = if global { 7 } else { 6 };
    let rest = slice_chars(t.as_slice(), from, n);
    assert(rest@ =~= t@.skip(from as int));
    match around_eq_of(&rest) {
        Some((name, e)) => Some(Ok(LineStatement::Declare(global, name, e))),
        None => Some(Err(owned("Invalid assignment"))),
    }
}

/// The name and expression of a trimmed assignment line (see
/// `plain_assignment`).
fn plain_assignment_of(t: &Vec<char>) -> (r: Option<(String, String)>)
    ensures
        match plain_assignment(t@) {
            Some((n, e)) => r matches Some((a, b)) && a@ == n && b@ == e,
            None => r is None,
        },
{
    let eqeq = vec!['=', '='];
    let ne = vec!['!', '='];
    let le = vec!['<', '='];
    let ge = vec!['>', '='];
    assert(eqeq@ =~= seq!['=', '=']);
    assert(ne@ =~= seq!['!', '=']);
    assert(le@ =~= seq!['<', '=']);
    assert(ge@ =~= seq!['>', '=']);
    if occurs(t, &eqeq) || occurs(t, &ne) || occurs(t, &le) || occurs(t, &ge) {
        return None;
    }
    match around_eq_of(t) {
        Some((name, e)) => {
            let nc = chars_of(name.as_str());
            if is_name_text(&nc) {
                Some((name, e))
            } else {
                None
            }
        },
        None => None,
    }
}

/// Whether a trimmed line only closes or continues a block (see
/// `block_word`).
fn block_word_of(t: &Vec<char>) -> (r: bool)
    ensures
        r == block_word(t@),
{
    word_is(t, &['t', 'r', 'y']) || word_is(t, &['c', 'a', 't', 'c', 'h'])
        || word_is(t, &['f', 'i', 'n', 'a', 'l', 'l', 'y']) || word_is(t, &['e', 'n', 'd', 't', 'r', 'y'])
        || word_is(t, &['e', 'l', 's', 'e']) || word_is(t, &['e', 'n', 'd', 'i', 'f'])
        || word_is(t, &['e', 'n', 'd', 'e', 'i', 'f'])
        || word_is(t, &['e', 'n', 'd', 'f', 'u', 'n', 'c', 't', 'i', 'o', 'n'])
}

/// Whether a trimmed line is a `for ... do` line (see `for_do`).
fn for_do_of(t: &Vec<char>) -> (r: bool)
    ensures
        r == for_do(t@),
{
    starts_with(t.as_slice(), &['f', 'o', 'r', ' ']) && ends_with(t.as_slice(), &[' ', 'd', 'o'])
}

/// What follows the first six characters of a trimmed line, trimmed.
fn after_six(t: &Vec<char>) -> (r: String)
    requires
        t@.len() >= 6,
    ensures
        r@ == trimmed(t@.skip(6)),
{
    let n = t.len();
    let rest = slice_chars(t.as_slice(), 6, n);
    assert(rest@ =~= t@.skip(6));
    let e = trim(rest.as_slice());
    string_of(e.as_slice())
}

/// A statement, or a syntax error at `line` with the message.
fn at_line(x: Result<LineStatement, String>, line: usize) -> (r: Result<LineStatement, DataCodeError>)
    ensures
        match outcome(x) {
            Ok(v) => r matches Ok(s) && s@ == v,
            Err(m) => syntax_error_with(r, m, line),
        },
{
    match x {
        Ok(s) => Ok(s),
        Err(m) => Err(DataCodeError::syntax_error(m, line, 0)),
    }
}

/// What a line does when it is run on its own (see `simple_line`); an
/// error is a syntax error at `line`.
pub fn simple_line_statement(code: &str, in_function: bool, line: usize) -> (r: Result<LineStatement, DataCodeError>)
    requires
        code@.len() < 0x7fff_ffff,
    ensures
        match simple_line(code@, in_function) {
            Ok(v) => r matches Ok(s) && s@ == v,
            Err(m) => syntax_error_with(r, m, line),
        },
{
    let c = chars_of(code);
    let t = trim(c.as_slice());
    if t.len() == 0 || t[0] == '#' || starts_with(t.as_slice(), &['n', 'e', 'x', 't', ' ']) {
        return Ok(LineStatement::Skip);
    }
    if word_is(&t, &['b', 'r', 'e', 'a', 'k']) {
        return Ok(LineStatement::Break);
    }
    if starts_with(t.as_slice(), &['f', 'u', 'n', 'c', 't', 'i', 'o', 'n', ' '])
        || starts_with(t.as_slice(), &['g', 'l', 'o', 'b', 'a', 'l', ' ', 'f', 'u', 'n', 'c', 't', 'i', 'o', 'n', ' '])
        || starts_with(t.as_slice(), &['l', 'o', 'c', 'a', 'l', ' ', 'f', 'u', 'n', 'c', 't', 'i', 'o', 'n', ' '])
        || starts_with(t.as_slice(), &['i', 'f', ' ']) || for_do_of(&t) || block_word_of(&t) {
        return Ok(LineStatement::Skip);
    }
    if starts_with(t.as_slice(), &['t', 'h', 'r', 'o', 'w', ' ']) {
        return Ok(LineStatement::Throw(after_six(&t)));
    }
    match print_statement_of(&t, true) {
        Some(x) => return at_line(x, line),
        None => {},
    }
    if starts_with(t.as_slice(), &['r', 'e', 't', 'u', 'r', 'n']) {
        if !in_function {
            return Err(DataCodeError::syntax_error(owned("return statement must be inside a function"), line, 0));
        }
        return Ok(LineStatement::Return(after_six(&t)));
    }
    match declaration_of(&t) {
        Some(x) => return at_line(x, line),
        None => {},
    }
    match plain_assignment_of(&t) {
        Some((name, e)) => return Ok(LineStatement::Assign(name, e)),
        None => {},
    }
    Ok(LineStatement::Expression(string_of(t.as_slice())))
}

/// What a line does when it is run inside a block (see `block_line`); an
/// error is a syntax error at `line`.
pub fn block_line_statement(code: &str, in_function: bool, in_loop: bool, frames_return: bool, line: usize) -> (r:
    Result<LineStatement, DataCodeError>)
    requires
        code@.len() < 0x7fff_ffff,
    ensures
        match block_line(code@, in_function, in_loop, frames_return) {
            Ok(v) => r matches Ok(s) && s@ == v,
            Err(m) => syntax_error_with(r, m, line),
        },
{
    let c = chars_of(code);
    let t = trim(c.as_slice());
    if t.len() == 0 || t[0] == '#' {
        return Ok(LineStatement::Skip);
    }
    if word_is(&t, &['b', 'r', 'e', 'a', 'k']) {
        if !in_loop {
            return Err(DataCodeError::syntax_error(owned("break statement must be inside a loop"), line, 0));
        }
        return Ok(LineStatement::Break);
    }
    if block_word_of(&t) || starts_with(t.as_slice(), &['n', 'e', 'x', 't', ' ']) || for_do_of(&t)
        || starts_with(t.as_slice(), &['i', 'f', ' ']) {
        return Ok(LineStatement::Skip);
    }
    if starts_with(t.as_slice(), &['r', 'e', 't', 'u', 'r', 'n']) {
        if frames_return {
            return Ok(LineStatement::Skip);
        }
        if !in_function {
            return Err(DataCodeError::syntax_error(owned("return statement must be inside a function"), line, 0));
        }
        return Ok(LineStatement::Return(after_six(&t)));
    }
    match declaration_of(&t) {
        Some(x) => return at_line(x, line),
        None => {},
    }
    match plain_assignment_of(&t) {
        Some((name, e)) => return Ok(LineStatement::Assign(name, e)),
        None => {},
    }
    match print_statement_of(&t, false) {
        Some(x) => return at_line(x, line),
        None => {},
    }
    if starts_with(t.as_slice(), &['t', 'h', 'r', 'o', 'w', ' ']) {
        return Ok(LineStatement::Throw(after_six(&t)));
    }
    Ok(LineStatement::Expression(string_of(t.as_slice())))
}

} // verus!
