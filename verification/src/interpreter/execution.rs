//! Line-level helpers of statement execution: reading the loop variable of
//! `for` and `next` lines, splitting call arguments, telling whether a
//! declaration continues on the next line, and printing values.
use vstd::prelude::*;
use crate::text::{chars_of, ends_with, slice_chars, starts_with, string_of, trim, trimmed, owned, push_string};
use crate::value::{Value, ValueView, value_list, lemma_value_list};
use crate::optimizer::ast::NumberArithmetic;
use crate::interpreter::call_frame::{NumberText, comma_joined};
use crate::interpreter::control_flow::{ControlFlowHandler, truth};

verus! {

/// The first index at or after `from` where `pat` occurs in `s`.
pub open spec fn find_from(s: Seq<char>, pat: Seq<char>, from: int) -> Option<int>
    decreases s.len() + 1 - from,
{
    if from < 0 || from + pat.len() > s.len() {
        None
    } else if s.subrange(from, from + pat.len()) == pat {
        Some(from)
    } else {
        find_from(s, pat, from + 1)
    }
}

/// `s` up to its first comma: the first piece of `s.split(',')`.
pub open spec fn before_comma(s: Seq<char>) -> Seq<char> {
    match find_from(s, seq![','], 0) {
        Some(i) => s.take(i),
        None => s,
    }
}

/// The variable of a `next <name>` line: what follows `next ` in the trimmed
/// line, trimmed, when that is not empty.
pub open spec fn next_variable(line: Seq<char>) -> Option<Seq<char>> {
    let t = trimmed(line);
    if t.len() >= 5 && t.take(5) == seq!['n', 'e', 'x', 't', ' '] {
        let v = trimmed(t.skip(5));
        if v.len() > 0 {
            Some(v)
        } else {
            None
        }
    } else {
        None
    }
}

/// The trimmed line both begins with `for ` and ends with ` do`.
pub open spec fn is_for_line(t: Seq<char>) -> bool {
    &&& t.len() >= 4 && t.take(4) == seq!['f', 'o', 'r', ' ']
    &&& t.len() >= 3 && t.skip(t.len() - 3) == seq![' ', 'd', 'o']
}

/// The first loop variable of a `for <vars> in <iterable> do` line: between
/// `for ` and ` do` there must be exactly one ` in `; of the part before it,
/// trimmed, the text before the first comma, trimmed, when not empty.
pub open spec fn for_variable(line: Seq<char>) -> Option<Seq<char>> {
    let t = trimmed(line);
    if is_for_line(t) {
        let body = t.subrange(4, t.len() - 3);
        let pat = seq![' ', 'i', 'n', ' '];
        match find_from(body, pat, 0) {
            None => None,
            Some(i) => match find_from(body, pat, i + 4) {
                Some(_) => None,
                None => {
                    let first = trimmed(before_comma(trimmed(body.take(i))));
                    if first.len() > 0 {
                        Some(first)
                    } else {
                        None
                    }
                },
            },
        }
    } else {
        None
    }
}

/// `find_from` finds the first occurrence at or after `from`.
pub proof fn lemma_find_from(s: Seq<char>, pat: Seq<char>, from: int, i: int)
    requires
        0 <= from <= i,
        forall|j: int| from <= j < i ==> #[trigger] s.subrange(j, j + pat.len()) != pat || j + pat.len() > s.len(),
        i + pat.len() > s.len() || s.subrange(i, i + pat.len()) == pat,
    ensures
        find_from(s, pat, from) == if i + pat.len() <= s.len() { Some(i) } else { None::<int> },
    decreases i - from,
{
    if from < i {
        if from + pat.len() <= s.len() {
            assert(s.subrange(from, from + pat.len()) != pat);
        }
        lemma_find_from(s, pat, from + 1, i);
    }
}

/// The first place at or after `from` where `pat` occurs (see `find_from`).
pub fn find_pattern(s: &Vec<char>, pat: &Vec<char>, from: usize) -> (r: Option<usize>)
    requires
        from <= s@.len(),
        pat@.len() > 0,
    ensures
        match r {
            Some(i) => find_from(s@, pat@, from as int) == Some(i as int),
            None => find_from(s@, pat@, from as int) is None,
        },
        r matches Some(i) ==> from <= i && i + pat@.len() <= s@.len(),
{
    let mut i = from;
    while i < s.len() && pat.len() <= s.len() - i
        invariant
            pat@.len() > 0,
            from <= i <= s@.len(),
            forall|j: int| from <= j < i ==> #[trigger] s@.subrange(j, j + pat@.len()) != pat@ || j + pat@.len() > s@.len(),
        decreases s.len() - i,
    {
        let mut k: usize = 0;
        let mut same = true;
        while k < pat.len()
            invariant
                i + pat@.len() <= s@.len(),
                pat@.len() == pat.len(),
                s@.len() == s.len(),
                k <= pat@.len(),
                same == forall|j: int| 0 <= j < k ==> s@[i + j] == pat@[j],
            decreases pat.len() - k,
        {
            if s[i + k] != pat[k] {
                same = false;
            }
            k = k + 1;
        }
        if same {
            proof {
                assert(s@.subrange(i as int, i + pat@.len()) =~= pat@);
                lemma_find_from(s@, pat@, from as int, i as int);
            }
            return Some(i);
        }
        proof {
            let w = choose|j: int| 0 <= j < pat@.len() && s@[i + j] != pat@[j];
            assert(s@.subrange(i as int, i + pat@.len())[w] != pat@[w]);
        }
        i = i + 1;
    }
    proof {
        lemma_find_from(s@, pat@, from as int, i as int);
    }
    None
}

/// Reads the variable of a `next <name>` line (see `next_variable`).
pub fn parse_next_variable(line: &str) -> (r: Option<String>)
    ensures
        match r {
            Some(v) => next_variable(line@) == Some(v@),
            None => next_variable(line@) is None,
        },
{
    let c = chars_of(line);
    let t = trim(&c);
    if starts_with(&t, &['n', 'e', 'x', 't', ' ']) {
        let rest = slice_chars(&t, 5, t.len());
        let v = trim(&rest);
        proof {
            assert(t@.take(5) == t@.subrange(0, 5));
            assert(rest@ == t@.skip(5));
        }
        if v.len() > 0 {
            return Some(string_of(&v));
        }
    }
    None
}

/// Reads the first loop variable of a `for` line (see `for_variable`). The
/// trimmed line `for do`, whose `for ` and ` do` overlap, is left out.
pub fn parse_for_variable(line: &str) -> (r: Option<String>)
    requires
        trimmed(line@) != seq!['f', 'o', 'r', ' ', 'd', 'o'],
    ensures
        match r {
            Some(v) => for_variable(line@) == Some(v@),
            None => for_variable(line@) is None,
        },
{
    let c = chars_of(line);
    let t = trim(&c);
    if starts_with(&t, &['f', 'o', 'r', ' ']) && ends_with(&t, &[' ', 'd', 'o']) {
        proof {
            assert(t@.take(4) == t@.subrange(0, 4));
            assert(t@.skip(t@.len() - 3) == t@.subrange(t@.len() - 3, t@.len() as int));
            if t@.len() < 7 {
                assert(t@.len() == 6) by {
                    if t@.len() <= 5 {
                        assert(t@.subrange(t@.len() - 3, t@.len() as int)[0] == ' ');
                        assert(t@[t@.len() - 3] == ' ');
                        assert(t@.subrange(0, 4)[t@.len() - 3] == t@[t@.len() - 3]);
                    }
                }
                assert(t@ =~= seq!['f', 'o', 'r', ' ', 'd', 'o']) by {
                    assert(t@[0] == t@.subrange(0, 4)[0]);
                    assert(t@[1] == t@.subrange(0, 4)[1]);
                    assert(t@[2] == t@.subrange(0, 4)[2]);
                    assert(t@[3] == t@.subrange(0, 4)[3]);
                    assert(t@[4] == t@.subrange(3, 6)[1]);
                    assert(t@[5] == t@.subrange(3, 6)[2]);
                }
            }
        }
        let body = slice_chars(&t, 4, t.len() - 3);
        let pat = vec![' ', 'i', 'n', ' '];
        proof {
            assert(pat@ =~= seq![' ', 'i', 'n', ' ']);
            assert(body@ == t@.subrange(4, t@.len() - 3));
        }
        match find_pattern(&body, &pat, 0) {
            None => None,
            Some(i) => match find_pattern(&body, &pat, i + 4) {
                Some(_) => None,
                None => {
                    let head = slice_chars(&body, 0, i);
                    let var_part = trim(&head);
                    let comma = vec![','];
                    proof {
                        assert(comma@ =~= seq![',']);
                    }
                    let ghost vp = var_part@;
                    let first = match find_pattern(&var_part, &comma, 0) {
                        Some(k) => {
                            let f = slice_chars(&var_part, 0, k);
                            proof { assert(f@ =~= vp.take(k as int)); }
                            f
                        },
                        None => var_part,
                    };
                    proof {
                        assert(head@ == body@.take(i as int));
                        assert(vp == trimmed(head@));
                        assert(comma@ == seq![',']);
                        assert(first@ == before_comma(vp));
                        assert(first@ == before_comma(trimmed(body@.take(i as int))));
                    }
                    let f = trim(&first);
                    if f.len() > 0 {
                        Some(string_of(&f))
                    } else {
                        None
                    }
                },
            },
        }
    } else {
        None
    }
}

/// The state of the argument splitter: the arguments so far, the argument
/// being read, the parenthesis depth, and the open quote if inside a string.
pub struct SplitState {
    pub args: Seq<Seq<char>>,
    pub cur: Seq<char>,
    pub depth: int,
    pub in_string: bool,
    pub quote: Option<char>,
}

/// An opening bracket of the splitter: `(`, and with `all` also `[` and `{`.
pub open spec fn opens(ch: char, all: bool) -> bool {
    ch == '(' || (all && (ch == '[' || ch == '{'))
}

/// A closing bracket of the splitter: `)`, and with `all` also `]` and `}`.
pub open spec fn closes(ch: char, all: bool) -> bool {
    ch == ')' || (all && (ch == ']' || ch == '}'))
}

/// One character through the splitter. A quote opens a string that the same
/// quote closes; outside strings the brackets (see `opens`, `closes`) change
/// the depth, and a comma at depth 0 ends the argument, which is kept,
/// trimmed, when not blank.
pub open spec fn split_step(st: SplitState, ch: char, all: bool) -> SplitState {
    if (ch == '"' || ch == '\'') && !st.in_string {
        SplitState { cur: st.cur.push(ch), in_string: true, quote: Some(ch), ..st }
    } else if st.in_string && st.quote == Some(ch) {
        SplitState { cur: st.cur.push(ch), in_string: false, quote: None, ..st }
    } else if opens(ch, all) && !st.in_string {
        SplitState { cur: st.cur.push(ch), depth: st.depth + 1, ..st }
    } else if closes(ch, all) && !st.in_string {
        SplitState { cur: st.cur.push(ch), depth: st.depth - 1, ..st }
    } else if ch == ',' && !st.in_string && st.depth == 0 {
        SplitState {
            args: if trimmed(st.cur).len() > 0 { st.args.push(trimmed(st.cur)) } else { st.args },
            cur: Seq::empty(),
            ..st
        }
    } else {
        SplitState { cur: st.cur.push(ch), ..st }
    }
}

/// The splitter's state after the first `n` characters of `s`.
pub open spec fn split_run(s: Seq<char>, n: nat, all: bool) -> SplitState
    decreases n,
{
    if n == 0 {
        SplitState { args: Seq::empty(), cur: Seq::empty(), depth: 0, in_string: false, quote: None }
    } else {
        split_step(split_run(s, (n - 1) as nat, all), s[n - 1], all)
    }
}

/// The pieces of a text split at commas outside strings and brackets (see
/// `split_step`), each trimmed, blank ones dropped.
pub open spec fn split_args(s: Seq<char>, all: bool) -> Seq<Seq<char>> {
    let st = split_run(s, s.len(), all);
    if trimmed(st.cur).len() > 0 {
        st.args.push(trimmed(st.cur))
    } else {
        st.args
    }
}

/// The texts of a list of strings.
pub open spec fn string_texts(v: Seq<String>) -> Seq<Seq<char>> {
    v.map_values(|x: String| x@)
}

/// Splits a call's argument text into its arguments: at commas outside
/// strings and parentheses (see `split_args`).
pub fn split_function_args(args_str: &str) -> (r: Vec<String>)
    requires
        args_str@.len() < 0x7fff_ffff,
    ensures
        string_texts(r@) == split_args(args_str@, false),
{
    let s = chars_of(args_str);
    split_at_commas(&s, false)
}

/// Splits a text at commas outside strings and brackets (see `split_args`).
pub(crate) fn split_at_commas(s: &Vec<char>, all: bool) -> (r: Vec<String>)
    requires
        s@.len() < 0x7fff_ffff,
    ensures
        string_texts(r@) == split_args(s@, all),
{
    let mut args: Vec<String> = Vec::new();
    let mut current: Vec<char> = Vec::new();
    let mut depth: i32 = 0;
    let mut in_string = false;
    let mut string_char: Option<char> = None;
    let mut i: usize = 0;
    proof {
        assert(string_texts(args@) =~= Seq::<Seq<char>>::empty());
    }
    while i < s.len()
        invariant
            s@.len() < 0x7fff_ffff,
            i <= s@.len(),
            -(i as int) <= depth <= i,
            ({
                let st = split_run(s@, i as nat, all);
                &&& string_texts(args@) == st.args
                &&& current@ == st.cur
                &&& depth == st.depth
                &&& in_string == st.in_string
                &&& string_char == st.quote
            }),
        decreases s.len() - i,
    {
        let ch = s[i];
        let opening = ch == '(' || (all && (ch == '[' || ch == '{'));
        let closing = ch == ')' || (all && (ch == ']' || ch == '}'));
        if (ch == '"' || ch == '\'') && !in_string {
            in_string = true;
            string_char = Some(ch);
            current.push(ch);
        } else if in_string && string_char == Some(ch) {
            in_string = false;
            string_char = None;
            current.push(ch);
        } else if opening && !in_string {
            depth = depth + 1;
            current.push(ch);
        } else if closing && !in_string {
            depth = depth - 1;
            current.push(ch);
        } else if ch == ',' && !in_string && depth == 0 {
            let t = trim(&current);
            if t.len() > 0 {
                let piece = string_of(&t);
                let ghost before = args@;
                args.push(piece);
                proof {
                    assert(string_texts(args@) =~= string_texts(before).push(t@));
                }
            }
            current = Vec::new();
        } else {
            current.push(ch);
        }
        i = i + 1;
    }
    let t = trim(&current);
    if t.len() > 0 {
        let piece = string_of(&t);
        let ghost before = args@;
        args.push(piece);
        proof {
            assert(string_texts(args@) =~= string_texts(before).push(t@));
        }
    }
    args
}

/// The bracket counts kept while scanning a declaration: square brackets,
/// parentheses, braces, inside a string or not, and whether the next
/// character is escaped.
pub struct BracketState {
    pub brackets: int,
    pub parens: int,
    pub braces: int,
    pub in_string: bool,
    pub escape_next: bool,
}

/// One character through the bracket counter: an escaped character is
/// skipped; `\` inside a string escapes the next; either quote toggles
/// "inside a string"; outside strings each bracket counts up or down.
pub open spec fn bracket_step(st: BracketState, ch: char) -> BracketState {
    if st.escape_next {
        BracketState { escape_next: false, ..st }
    } else if ch == '\\' && st.in_string {
        BracketState { escape_next: true, ..st }
    } else if ch == '"' || ch == '\'' {
        BracketState { in_string: !st.in_string, ..st }
    } else if st.in_string {
        st
    } else if ch == '[' {
        BracketState { brackets: st.brackets + 1, ..st }
    } else if ch == ']' {
        BracketState { brackets: st.brackets - 1, ..st }
    } else if ch == '(' {
        BracketState { parens: st.parens + 1, ..st }
    } else if ch == ')' {
        BracketState { parens: st.parens - 1, ..st }
    } else if ch == '{' {
        BracketState { braces: st.braces + 1, ..st }
    } else if ch == '}' {
        BracketState { braces: st.braces - 1, ..st }
    } else {
        st
    }
}

/// The bracket counter's state after the first `n` characters of `s`.
pub open spec fn bracket_run(s: Seq<char>, n: nat) -> BracketState
    decreases n,
{
    if n == 0 {
        BracketState { brackets: 0, parens: 0, braces: 0, in_string: false, escape_next: false }
    } else {
        bracket_step(bracket_run(s, (n - 1) as nat), s[n - 1])
    }
}

/// A `global` or `local` declaration with an `=` whose brackets,
/// parentheses or braces are not all closed yet.
pub open spec fn incomplete_assignment(line: Seq<char>) -> bool {
    let t = trimmed(line);
    let declaration = (t.len() >= 7 && t.take(7) == seq!['g', 'l', 'o', 'b', 'a', 'l', ' '])
        || (t.len() >= 6 && t.take(6) == seq!['l', 'o', 'c', 'a', 'l', ' ']);
    let st = bracket_run(line, line.len());
    declaration && line.contains('=') && (st.brackets > 0 || st.parens > 0 || st.braces > 0)
}

/// Whether a line is a declaration that continues on the next line (see
/// `incomplete_assignment`).
pub fn is_incomplete_assignment(line: &str) -> (r: bool)
    requires
        line@.len() < 0x7fff_ffff,
    ensures
        r == incomplete_assignment(line@),
{
    let s = chars_of(line);
    let t = trim(&s);
    let is_declaration = starts_with(&t, &['g', 'l', 'o', 'b', 'a', 'l', ' '])
        || starts_with(&t, &['l', 'o', 'c', 'a', 'l', ' ']);
    proof {
        assert(t@.len() >= 7 ==> t@.take(7) == t@.subrange(0, 7));
        assert(t@.len() >= 6 ==> t@.take(6) == t@.subrange(0, 6));
    }
    let mut has_eq = false;
    let mut k: usize = 0;
    while k < s.len()
        invariant
            k <= s@.len(),
            has_eq == exists|j: int| 0 <= j < k && s@[j] == '=',
        decreases s.len() - k,
    {
        if s[k] == '=' {
            has_eq = true;
        }
        k = k + 1;
    }
    proof {
        if has_eq {
            let j = choose|j: int| 0 <= j < k && s@[j] == '=';
            assert(s@.contains('='));
        } else {
            assert(!s@.contains('='));
        }
    }
    if !is_declaration || !has_eq {
        return false;
    }
    let mut bracket_count: i32 = 0;
    let mut paren_count: i32 = 0;
    let mut brace_count: i32 = 0;
    let mut in_string = false;
    let mut escape_next = false;
    let mut i: usize = 0;
    while i < s.len()
        invariant
            s@ == line@,
            s@.len() < 0x7fff_ffff,
            i <= s@.len(),
            -(i as int) <= bracket_count <= i,
            -(i as int) <= paren_count <= i,
            -(i as int) <= brace_count <= i,
            ({
                let st = bracket_run(s@, i as nat);
                &&& bracket_count == st.brackets
                &&& paren_count == st.parens
                &&& brace_count == st.braces
                &&& in_string == st.in_string
                &&& escape_next == st.escape_next
            }),
        decreases s.len() - i,
    {
        let ch = s[i];
        if escape_next {
            escape_next = false;
        } else if ch == '\\' && in_string {
            escape_next = true;
        } else if ch == '"' || ch == '\'' {
            in_string = !in_string;
        } else if in_string {
        } else if ch == '[' {
            bracket_count = bracket_count + 1;
        } else if ch == ']' {
            bracket_count = bracket_count - 1;
        } else if ch == '(' {
            paren_count = paren_count + 1;
        } else if ch == ')' {
            paren_count = paren_count - 1;
        } else if ch == '{' {
            brace_count = brace_count + 1;
        } else if ch == '}' {
            brace_count = brace_count - 1;
        }
        i = i + 1;
    }
    bracket_count > 0 || paren_count > 0 || brace_count > 0
}

/// `t` is how `print` shows `v`: a number as the number text writes it; a
/// list as its elements' texts (each as `print` shows it) between `[` and
/// `]`, separated by `, `; any other value as `print_text` gives it.
pub open spec fn printed_as(v: ValueView, t: Seq<char>) -> bool
    decreases v,
{
    match v {
        ValueView::Number(_) => true,
        ValueView::Array(xs) => exists|ts: Seq<Seq<char>>|
            #![trigger comma_joined(ts)]
            ts.len() == xs.len() && (forall|i: int| 0 <= i < xs.len() ==> printed_as(xs[i], #[trigger] ts[i])) && t
                == seq!['['] + comma_joined(ts) + seq![']'],
        _ => t == print_text(v),
    }
}

/// The printed text of a list (see `printed_as`).
fn list_text_for_print<N: NumberText>(v: &Vec<Value>, numbers: &N) -> (r: String)
    ensures
        printed_as(ValueView::Array(value_list(v@)), r@),
    decreases v,
{
    proof {
        lemma_value_list(v@);
        reveal_strlit("[");
        reveal_strlit("]");
        reveal_strlit(", ");
        assert("["@ =~= seq!['[']);
        assert("]"@ =~= seq![']']);
        assert(", "@ =~= seq![',', ' ']);
    }
    let ghost xs = value_list(v@);
    let mut r = owned("[");
    let ghost mut ts: Seq<Seq<char>> = Seq::empty();
    let mut i: usize = 0;
    while i < v.len()
        invariant
            i <= v@.len(),
            xs == value_list(v@),
            xs.len() == v@.len(),
            forall|j: int| 0 <= j < v@.len() ==> #[trigger] xs[j] == v@[j]@,
            ts.len() == i,
            forall|j: int| 0 <= j < i ==> printed_as(xs[j], #[trigger] ts[j]),
            r@ == seq!['['] + comma_joined(ts),
            ", "@ == seq![',', ' '],
        decreases v.len() - i,
    {
        let ghost before = r@;
        if i > 0 {
            push_string(&mut r, ", ");
        }
        let t = format_value_for_print(&v[i], numbers);
        push_string(&mut r, t.as_str());
        proof {
            let ts2 = ts.push(t@);
            assert(ts2.drop_last() =~= ts);
            if i > 0 {
                assert(r@ =~= seq!['['] + comma_joined(ts2));
            } else {
                assert(r@ =~= seq!['['] + comma_joined(ts2));
            }
            ts = ts2;
        }
        i = i + 1;
    }
    push_string(&mut r, "]");
    proof {
        assert(r@ =~= seq!['['] + comma_joined(ts) + seq![']']);
        assert(comma_joined(ts) == comma_joined(ts));
    }
    r
}

/// The printed text of a value that is not a number: a string as it is,
/// `true`, `false`, `null`.
pub open spec fn print_text(v: ValueView) -> Seq<char> {
    match v {
        ValueView::String(s) => s,
        ValueView::Bool(b) => if b { "true"@ } else { "false"@ },
        _ => "null"@,
    }
}

/// The text of a value as `print` shows it (see `print_text`); a number is
/// written by `numbers`, and a list as its elements' texts between brackets,
/// separated by commas.
pub fn format_value_for_print<N: NumberText>(value: &Value, numbers: &N) -> (r: String)
    ensures
        !(value@ is Number) && !(value@ is Array) ==> r@ == print_text(value@),
        printed_as(value@, r@),
    decreases value,
{
    match value {
        Value::Number(t) => numbers.display_text(t.as_str()),
        Value::String(s) => s.clone(),
        Value::Bool(b) => if *b { owned("true") } else { owned("false") },
        Value::Null => owned("null"),
        Value::Array(v) => list_text_for_print(v, numbers),
    }
}

/// The truth of a value (see `ControlFlowHandler::to_bool`).
pub fn to_bool<N: NumberArithmetic>(value: &Value, numbers: &N) -> (r: bool)
    ensures
        !(value@ is Number) ==> r == truth(value@),
{
    ControlFlowHandler::to_bool(value, numbers)
}

} // verus!
