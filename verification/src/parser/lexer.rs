//! The DataCode lexer: turns source text into tokens, one at a time.
use vstd::prelude::*;
use crate::text::{alphabetic, alphanumeric, ascii_digit, is_alnum, is_alpha, is_digit, is_ws, whitespace, chars_of};
use super::tokens::{Token, TokenView};

verus! {

/// The character at index `p`, if there is one.
pub open spec fn char_at(s: Seq<char>, p: int) -> Option<char> {
    if 0 <= p < s.len() {
        Some(s[p])
    } else {
        None
    }
}

/// The first index at or after `p` whose character does not satisfy `keep`,
/// or the length of `s` when there is none.
pub open spec fn run_end(s: Seq<char>, p: int, keep: spec_fn(char) -> bool) -> int
    decreases s.len() - p,
{
    if 0 <= p < s.len() && keep(s[p]) {
        run_end(s, p + 1, keep)
    } else {
        p
    }
}

/// Whitespace that the lexer skips between tokens: all of it but line feeds.
pub open spec fn blank(c: char) -> bool {
    is_ws(c) && c != '\n'
}

/// Any character but `q`.
pub open spec fn not_char(q: char) -> spec_fn(char) -> bool {
    |c: char| c != q
}

/// A character that may continue an identifier.
pub open spec fn ident_char(c: char) -> bool {
    is_alnum(c) || c == '_'
}

/// A character that may continue a number literal.
pub open spec fn number_char(c: char) -> bool {
    is_digit(c) || c == '.'
}

/// Where a `"""` comment whose body starts at `p` ends: just after the
/// first `"""` at or after `p`, or at the end of the input.
pub open spec fn comment_end(s: Seq<char>, p: int) -> int
    decreases s.len() - p,
{
    if 0 <= p < s.len() {
        if s[p] == '"' && char_at(s, p + 1) == Some('"') && char_at(s, p + 2) == Some('"') {
            p + 3
        } else {
            comment_end(s, p + 1)
        }
    } else {
        p
    }
}

/// The token that a word stands for: a keyword, a boolean, `null`, or a name.
pub open spec fn keyword_or_name(w: Seq<char>) -> TokenView {
    if w == seq!['t', 'r', 'u', 'e'] {
        TokenView::Bool(true)
    } else if w == seq!['f', 'a', 'l', 's', 'e'] {
        TokenView::Bool(false)
    } else if w == seq!['n', 'u', 'l', 'l'] {
        TokenView::Null
    } else if w == seq!['a', 'n', 'd'] {
        TokenView::And
    } else if w == seq!['o', 'r'] {
        TokenView::Or
    } else if w == seq!['n', 'o', 't'] {
        TokenView::Not
    } else if w == seq!['t', 'r', 'y'] {
        TokenView::Try
    } else if w == seq!['c', 'a', 't', 'c', 'h'] {
        TokenView::Catch
    } else if w == seq!['f', 'i', 'n', 'a', 'l', 'l', 'y'] {
        TokenView::Finally
    } else if w == seq!['e', 'n', 'd', 't', 'r', 'y'] {
        TokenView::EndTry
    } else if w == seq!['t', 'h', 'r', 'o', 'w'] {
        TokenView::Throw
    } else if w == seq!['f', 'u', 'n', 'c', 't', 'i', 'o', 'n'] {
        TokenView::Function
    } else if w == seq!['g', 'l', 'o', 'b', 'a', 'l'] {
        TokenView::Global
    } else if w == seq!['l', 'o', 'c', 'a', 'l'] {
        TokenView::Local
    } else if w == seq!['d', 'o'] {
        TokenView::Do
    } else if w == seq!['e', 'n', 'd', 'f', 'u', 'n', 'c', 't', 'i', 'o', 'n'] {
        TokenView::EndFunction
    } else if w == seq!['r', 'e', 't', 'u', 'r', 'n'] {
        TokenView::Return
    } else if w == seq!['p', 'r', 'i', 'n', 't'] {
        TokenView::Print
    } else {
        TokenView::Identifier(w)
    }
}

/// A quoted string whose opening quote stands at `p`: its text runs to the
/// next `quote` or to the end of the input, and the closing quote is consumed.
pub open spec fn quoted(s: Seq<char>, p: int, quote: char) -> (TokenView, int) {
    let close = run_end(s, p + 1, not_char(quote));
    (TokenView::String(s.subrange(p + 1, close)), if close < s.len() { close + 1 } else { close })
}

/// A one- or two-character operator: `second` if the next character is `=`.
pub open spec fn with_eq(s: Seq<char>, p: int, first: TokenView, second: TokenView) -> (TokenView, int) {
    if char_at(s, p + 1) == Some('=') {
        (second, p + 2)
    } else {
        (first, p + 1)
    }
}

/// The token that starts at or after index `p` of `s`, and the index just
/// after it. Spaces, tabs and carriage returns (with any other whitespace that
/// follows them, line feeds excepted), `#` comments up to the line feed,
/// `"""` comments and characters that begin no token are skipped; at the end
/// of the input the token is `EOF` and the index stays.
pub open spec fn lex(s: Seq<char>, p: int) -> (TokenView, int)
    decreases s.len() - p,
{
    if p < 0 || p >= s.len() {
        (TokenView::EOF, p)
    } else {
        let c = s[p];
        if c == ' ' || c == '\t' || c == '\r' {
            proof { lemma_run_end_bounds(s, p, |c: char| blank(c)); }
            lex(s, run_end(s, p, |c: char| blank(c)))
        } else if c == '\n' {
            (TokenView::Newline, p + 1)
        } else if c == '#' {
            proof { lemma_run_end_bounds(s, p + 1, not_char('\n')); }
            lex(s, run_end(s, p + 1, not_char('\n')))
        } else if c == '"' && char_at(s, p + 1) == Some('"') && char_at(s, p + 2) == Some('"') {
            proof { lemma_comment_end_bounds(s, p + 3); }
            lex(s, comment_end(s, p + 3))
        } else if c == '"' {
            quoted(s, p, '"')
        } else if c == '\'' {
            quoted(s, p, '\'')
        } else if is_digit(c) {
            let e = run_end(s, p, |c: char| number_char(c));
            (TokenView::Number(s.subrange(p, e)), e)
        } else if is_alpha(c) || c == '_' {
            let e = run_end(s, p, |c: char| ident_char(c));
            (keyword_or_name(s.subrange(p, e)), e)
        } else if c == '+' {
            (TokenView::Plus, p + 1)
        } else if c == '-' {
            (TokenView::Minus, p + 1)
        } else if c == '*' {
            (TokenView::Multiply, p + 1)
        } else if c == '/' {
            (TokenView::Divide, p + 1)
        } else if c == '%' {
            (TokenView::Modulo, p + 1)
        } else if c == '=' {
            with_eq(s, p, TokenView::Assign, TokenView::Equal)
        } else if c == '!' {
            with_eq(s, p, TokenView::Not, TokenView::NotEqual)
        } else if c == '<' {
            with_eq(s, p, TokenView::Less, TokenView::LessEqual)
        } else if c == '>' {
            with_eq(s, p, TokenView::Greater, TokenView::GreaterEqual)
        } else if c == '(' {
            (TokenView::LeftParen, p + 1)
        } else if c == ')' {
            (TokenView::RightParen, p + 1)
        } else if c == '[' {
            (TokenView::LeftBracket, p + 1)
        } else if c == ']' {
            (TokenView::RightBracket, p + 1)
        } else if c == '{' {
            (TokenView::LeftBrace, p + 1)
        } else if c == '}' {
            (TokenView::RightBrace, p + 1)
        } else if c == ',' {
            (TokenView::Comma, p + 1)
        } else if c == '.' {
            (TokenView::Dot, p + 1)
        } else if c == ':' {
            (TokenView::Colon, p + 1)
        } else {
            lex(s, p + 1)
        }
    }
}

/// A word is read whole: at a letter or an underscore, the lexer reads the
/// longest run of letters, digits and underscores that starts there, and
/// the token is the keyword, boolean, `null` or name that the run spells
/// (see `keyword_or_name`). So `x1` is one name, and `x1 = 5` starts with
/// the name `x1`.
pub proof fn law_words_are_read_whole(s: Seq<char>, p: int, e: int)
    requires
        0 <= p < e <= s.len(),
        is_alpha(s[p]) || s[p] == '_',
        forall|i: int| p <= i < e ==> is_alnum(#[trigger] s[i]) || s[i] == '_',
        e == s.len() || !(is_alnum(s[e]) || s[e] == '_'),
    ensures
        lex(s, p) == (keyword_or_name(s.subrange(p, e)), e),
{
    let c = s[p];
    assert(!is_digit(c));
    assert(c != ' ' && c != '\t' && c != '\r' && c != '\n' && c != '#' && c != '"' && c != '\'');
    lemma_run_end_at(s, p, e, |c: char| ident_char(c));
}

/// `run_end` stays within `[p, len]` and stops at a character that `keep`
/// refuses, having passed only characters that `keep` accepts.
pub proof fn lemma_run_end_bounds(s: Seq<char>, p: int, keep: spec_fn(char) -> bool)
    requires
        0 <= p <= s.len(),
    ensures
        p <= run_end(s, p, keep) <= s.len(),
        p < s.len() && keep(s[p]) ==> run_end(s, p, keep) > p,
        run_end(s, p, keep) < s.len() ==> !keep(s[run_end(s, p, keep)]),
        forall|i: int| p <= i < run_end(s, p, keep) ==> keep(#[trigger] s[i]),
    decreases s.len() - p,
{
    if p < s.len() && keep(s[p]) {
        lemma_run_end_bounds(s, p + 1, keep);
    }
}

/// A run that passed `q - p` accepted characters and stopped at `q` ends at `q`.
pub proof fn lemma_run_end_at(s: Seq<char>, p: int, q: int, keep: spec_fn(char) -> bool)
    requires
        0 <= p <= q <= s.len(),
        forall|i: int| p <= i < q ==> keep(#[trigger] s[i]),
        q == s.len() || !keep(s[q]),
    ensures
        run_end(s, p, keep) == q,
    decreases q - p,
{
    if p < q {
        lemma_run_end_at(s, p + 1, q, keep);
    }
}

/// `comment_end` stays within `[p, len]`.
pub proof fn lemma_comment_end_bounds(s: Seq<char>, p: int)
    requires
        0 <= p <= s.len(),
    ensures
        p <= comment_end(s, p) <= s.len(),
    decreases s.len() - p,
{
    if p < s.len() {
        if !(s[p] == '"' && char_at(s, p + 1) == Some('"') && char_at(s, p + 2) == Some('"')) {
            lemma_comment_end_bounds(s, p + 1);
        }
    }
}

/// `lex` moves forward, stays within the input, and moves by at least one
/// character when it finds a token other than `EOF`.
pub proof fn lemma_lex_progress(s: Seq<char>, p: int)
    requires
        0 <= p <= s.len(),
    ensures
        p <= lex(s, p).1 <= s.len(),
        !(lex(s, p).0 is EOF) ==> lex(s, p).1 > p,
    decreases s.len() - p,
{
    if p < s.len() {
        let c = s[p];
        if c == ' ' || c == '\t' || c == '\r' {
            lemma_run_end_bounds(s, p, |c: char| blank(c));
            lemma_lex_progress(s, run_end(s, p, |c: char| blank(c)));
        } else if c == '\n' {
        } else if c == '#' {
            lemma_run_end_bounds(s, p + 1, not_char('\n'));
            lemma_lex_progress(s, run_end(s, p + 1, not_char('\n')));
        } else if c == '"' && char_at(s, p + 1) == Some('"') && char_at(s, p + 2) == Some('"') {
            lemma_comment_end_bounds(s, p + 3);
            lemma_lex_progress(s, comment_end(s, p + 3));
        } else if c == '"' {
            lemma_run_end_bounds(s, p + 1, not_char('"'));
        } else if c == '\'' {
            lemma_run_end_bounds(s, p + 1, not_char('\''));
        } else if is_digit(c) {
            lemma_run_end_bounds(s, p, |c: char| number_char(c));
        } else if is_alpha(c) || c == '_' {
            lemma_run_end_bounds(s, p, |c: char| ident_char(c));
        } else if c == '+' || c == '-' || c == '*' || c == '/' || c == '%' || c == '=' || c == '!'
            || c == '<' || c == '>' || c == '(' || c == ')' || c == '[' || c == ']' || c == '{'
            || c == '}' || c == ',' || c == '.' || c == ':' {
        } else {
            lemma_lex_progress(s, p + 1);
        }
    }
}

/// The lexer: the input's characters, the index of the current character,
/// and the current character itself.
pub struct Lexer {
    input: Vec<char>,
    position: usize,
    current_char: Option<char>,
}

impl Lexer {
    /// The characters being lexed.
    pub closed spec fn text(&self) -> Seq<char> {
        self.input@
    }

    /// The index of the next character to read.
    pub closed spec fn pos(&self) -> int {
        self.position as int
    }

    /// The index stays within the input and the current character is the one
    /// at that index.
    pub closed spec fn wf(&self) -> bool {
        &&& self.position <= self.input.len()
        &&& self.current_char == char_at(self.input@, self.position as int)
    }

    /// The index stays within the input.
    pub proof fn lemma_pos_bounds(&self)
        requires
            self.wf(),
        ensures
            0 <= self.pos() <= self.text().len(),
    {
    }

    /// The current character.
    pub(crate) fn current(&self) -> (r: Option<char>)
        requires
            self.wf(),
        ensures
            r == char_at(self.text(), self.pos()),
    {
        self.current_char
    }

    /// Whether the input has a character at index `i`.
    pub(crate) fn has_index(&self, i: usize) -> (r: bool)
        ensures
            r == (i < self.text().len()),
    {
        i < self.input.len()
    }

    /// The index of the current character.
    pub(crate) fn position(&self) -> (r: usize)
        ensures
            r == self.pos(),
    {
        self.position
    }

    /// A lexer at the start of `input`.
    pub fn new(input: &str) -> (r: Self)
        ensures
            r.wf(),
            r.text() == input@,
            r.pos() == 0,
    {
        let chars = chars_of(input);
        let current_char = if chars.len() > 0 { Some(chars[0]) } else { None };
        Lexer { input: chars, position: 0, current_char }
    }

    pub(crate) fn advance(&mut self)
        requires
            old(self).wf(),
            old(self).pos() < old(self).text().len(),
        ensures
            final(self).wf(),
            final(self).text() == old(self).text(),
            final(self).pos() == old(self).pos() + 1,
    {
        self.position = self.position + 1;
        self.current_char = self.get(self.position);
    }

    pub(crate) fn get(&self, i: usize) -> (r: Option<char>)
        ensures
            r == char_at(self.text(), i as int),
    {
        if i < self.input.len() {
            Some(self.input[i])
        } else {
            None
        }
    }

    pub(crate) fn peek(&self) -> (r: Option<char>)
        requires
            self.wf(),
        ensures
            r == char_at(self.text(), self.pos() + 1),
    {
        if self.position < self.input.len() {
            self.get(self.position + 1)
        } else {
            None
        }
    }

    pub(crate) fn skip_whitespace(&mut self)
        requires
            old(self).wf(),
        ensures
            final(self).wf(),
            final(self).text() == old(self).text(),
            final(self).pos() == run_end(old(self).text(), old(self).pos(), |c: char| blank(c)),
    {
        let ghost p0 = self.position as int;
        while self.current_char.is_some()
            invariant
                self.wf(),
                self.input@ == old(self).input@,
                p0 <= self.position,
                forall|i: int| p0 <= i < self.position ==> blank(#[trigger] self.input@[i]),
            ensures
                self.wf(),
                self.input@ == old(self).input@,
                p0 <= self.position,
                forall|i: int| p0 <= i < self.position ==> blank(#[trigger] self.input@[i]),
                self.position == self.input.len() || !blank(self.input@[self.position as int]),
            decreases self.input.len() - self.position,
        {
            let ch = self.current_char.unwrap();
            if whitespace(ch) && ch != '\n' {
                self.advance();
            } else {
                break;
            }
        }
        proof {
            lemma_run_end_at(self.input@, p0, self.position as int, |c: char| blank(c));
        }
    }

    pub(crate) fn read_string(&mut self, quote: char) -> (r: String)
        requires
            old(self).wf(),
            old(self).pos() < old(self).text().len(),
            old(self).text()[old(self).pos()] == quote,
        ensures
            final(self).wf(),
            final(self).text() == old(self).text(),
            (TokenView::String(r@), final(self).pos()) == quoted(old(self).text(), old(self).pos(), quote),
    {
        let ghost s = self.input@;
        let ghost p = self.position as int;
        let mut result = String::new();
        self.advance();
        while self.current_char.is_some()
            invariant
                self.wf(),
                self.input@ == old(self).input@,
                s == self.input@,
                0 <= p,
                p + 1 <= self.position,
                result@ == s.subrange(p + 1, self.position as int),
                forall|i: int| p + 1 <= i < self.position ==> #[trigger] s[i] != quote,
            ensures
                self.wf(),
                self.input@ == old(self).input@,
                0 <= p,
                p + 1 <= self.position,
                result@ == s.subrange(p + 1, self.position as int),
                forall|i: int| p + 1 <= i < self.position ==> #[trigger] s[i] != quote,
                self.position == s.len() || s[self.position as int] == quote,
            decreases self.input.len() - self.position,
        {
            let ch = self.current_char.unwrap();
            if ch == quote {
                break;
            }
            let ghost q = self.position as int;
            crate::text::push_char(&mut result, ch);
            self.advance();
            proof {
                assert(s.subrange(p + 1, q + 1) =~= s.subrange(p + 1, q).push(ch));
            }
        }
        proof {
            lemma_run_end_at(s, p + 1, self.position as int, not_char(quote));
        }
        if self.current_char.is_some() {
            self.advance();
        }
        proof {
            assert(TokenView::String(result@) == quoted(s, p, quote).0);
        }
        result
    }

    pub(crate) fn read_number(&mut self) -> (r: String)
        requires
            old(self).wf(),
        ensures
            final(self).wf(),
            final(self).text() == old(self).text(),
            final(self).pos() == run_end(old(self).text(), old(self).pos(), |c: char| number_char(c)),
            r@ == old(self).text().subrange(old(self).pos(), final(self).pos()),
    {
        let ghost s = self.input@;
        let ghost p = self.position as int;
        let mut result = String::new();
        while self.current_char.is_some()
            invariant
                self.wf(),
                self.input@ == old(self).input@,
                s == self.input@,
                0 <= p,
                p <= self.position,
                result@ == s.subrange(p, self.position as int),
                forall|i: int| p <= i < self.position ==> number_char(#[trigger] s[i]),
            ensures
                self.wf(),
                self.input@ == old(self).input@,
                0 <= p,
                p <= self.position,
                result@ == s.subrange(p, self.position as int),
                forall|i: int| p <= i < self.position ==> number_char(#[trigger] s[i]),
                self.position == s.len() || !number_char(s[self.position as int]),
            decreases self.input.len() - self.position,
        {
            let ch = self.current_char.unwrap();
            if ascii_digit(ch) || ch == '.' {
                let ghost q = self.position as int;
                crate::text::push_char(&mut result, ch);
                self.advance();
                proof {
                    assert(s.subrange(p, q + 1) =~= s.subrange(p, q).push(ch));
                }
            } else {
                break;
            }
        }
        proof {
            lemma_run_end_at(s, p, self.position as int, |c: char| number_char(c));
        }
        result
    }

    pub(crate) fn read_identifier(&mut self) -> (r: String)
        requires
            old(self).wf(),
        ensures
            final(self).wf(),
            final(self).text() == old(self).text(),
            final(self).pos() == run_end(old(self).text(), old(self).pos(), |c: char| ident_char(c)),
            r@ == old(self).text().subrange(old(self).pos(), final(self).pos()),
    {
        let ghost s = self.input@;
        let ghost p = self.position as int;
        let mut result = String::new();
        while self.current_char.is_some()
            invariant
                self.wf(),
                self.input@ == old(self).input@,
                s == self.input@,
                0 <= p,
                p <= self.position,
                result@ == s.subrange(p, self.position as int),
                forall|i: int| p <= i < self.position ==> ident_char(#[trigger] s[i]),
            ensures
                self.wf(),
                self.input@ == old(self).input@,
                0 <= p,
                p <= self.position,
                result@ == s.subrange(p, self.position as int),
                forall|i: int| p <= i < self.position ==> ident_char(#[trigger] s[i]),
                self.position == s.len() || !ident_char(s[self.position as int]),
            decreases self.input.len() - self.position,
        {
            let ch = self.current_char.unwrap();
            if alphanumeric(ch) || ch == '_' {
                let ghost q = self.position as int;
                crate::text::push_char(&mut result, ch);
                self.advance();
                proof {
                    assert(s.subrange(p, q + 1) =~= s.subrange(p, q).push(ch));
                }
            } else {
                break;
            }
        }
        proof {
            lemma_run_end_at(s, p, self.position as int, |c: char| ident_char(c));
        }
        result
    }

    fn skip_single_line_comment(&mut self)
        requires
            old(self).wf(),
            old(self).pos() < old(self).text().len(),
        ensures
            final(self).wf(),
            final(self).text() == old(self).text(),
            final(self).pos() == run_end(old(self).text(), old(self).pos() + 1, not_char('\n')),
    {
        let ghost s = self.input@;
        self.advance();
        let ghost p = self.position as int;
        while self.current_char.is_some()
            invariant
                self.wf(),
                self.input@ == old(self).input@,
                s == self.input@,
                0 <= p,
                p <= self.position,
                forall|i: int| p <= i < self.position ==> #[trigger] s[i] != '\n',
            ensures
                self.wf(),
                self.input@ == old(self).input@,
                0 <= p,
                p <= self.position,
                forall|i: int| p <= i < self.position ==> #[trigger] s[i] != '\n',
                self.position == s.len() || s[self.position as int] == '\n',
            decreases self.input.len() - self.position,
        {
            let ch = self.current_char.unwrap();
            if ch == '\n' {
                break;
            }
            self.advance();
        }
        proof {
            lemma_run_end_at(s, p, self.position as int, not_char('\n'));
        }
    }

    fn skip_multiline_comment(&mut self)
        requires
            old(self).wf(),
            old(self).pos() + 2 < old(self).text().len(),
        ensures
            final(self).wf(),
            final(self).text() == old(self).text(),
            final(self).pos() == comment_end(old(self).text(), old(self).pos() + 3),
    {
        let ghost s = self.input@;
        self.advance();
        self.advance();
        self.advance();
        while self.current_char.is_some()
            invariant_except_break
                comment_end(s, self.position as int) == comment_end(s, old(self).pos() + 3),
            invariant
                self.wf(),
                self.input@ == old(self).input@,
                s == self.input@,
            ensures
                self.wf(),
                self.input@ == old(self).input@,
                self.position as int == comment_end(s, old(self).pos() + 3),
            decreases self.input.len() - self.position,
        {
            let ch = self.current_char.unwrap();
            if ch == '"' && self.peek() == Some('"') {
                if self.get(self.position + 2) == Some('"') {
                    self.advance();
                    self.advance();
                    self.advance();
                    break;
                }
            }
            self.advance();
        }
    }


    /// The next token, read from the current position: the token that `lex`
    /// finds there, with the position moved just past it.
    pub fn next_token(&mut self) -> (t: Token)
        requires
            old(self).wf(),
        ensures
            final(self).wf(),
            final(self).text() == old(self).text(),
            (t@, final(self).pos()) == lex(old(self).text(), old(self).pos()),
    {
        let ghost s = self.input@;
        let ghost target = lex(s, self.position as int);
        loop
            invariant
                self.wf(),
                self.input@ == s,
                self.input@ == old(self).input@,
                lex(s, self.position as int) == target,
                target == lex(old(self).text(), old(self).pos()),
            decreases self.input.len() - self.position,
        {
            let ghost p = self.position as int;
            let c = match self.current_char {
                None => return Token::EOF,
                Some(c) => c,
            };
            if c == ' ' || c == '\t' || c == '\r' {
                proof { lemma_run_end_bounds(s, p, |c: char| blank(c)); }
                self.skip_whitespace();
                continue;
            }
            if c == '\n' {
                self.advance();
                return Token::Newline;
            }
            if c == '#' {
                proof { lemma_run_end_bounds(s, p + 1, not_char('\n')); }
                self.skip_single_line_comment();
                continue;
            }
            if c == '"' {
                let second = self.peek();
                let third = if self.position + 1 < self.input.len() {
                    self.get(self.position + 2)
                } else {
                    None
                };
                if second == Some('"') && third == Some('"') {
                    proof { lemma_comment_end_bounds(s, p + 3); }
                    self.skip_multiline_comment();
                    continue;
                }
                let text = self.read_string('"');
                return Token::String(text);
            }
            if c == '\'' {
                let text = self.read_string('\'');
                return Token::String(text);
            }
            if ascii_digit(c) {
                let num = self.read_number();
                return Token::Number(num);
            }
            if alphabetic(c) || c == '_' {
                let ident = self.read_identifier();
                return self.keyword_or_identifier(ident);
            }
            if c == '=' || c == '!' || c == '<' || c == '>' {
                let next_is_eq = match self.peek() {
                    Some(n) => n == '=',
                    None => false,
                };
                self.advance();
                if next_is_eq {
                    self.advance();
                }
                return if c == '=' {
                    if next_is_eq { Token::Equal } else { Token::Assign }
                } else if c == '!' {
                    if next_is_eq { Token::NotEqual } else { Token::Not }
                } else if c == '<' {
                    if next_is_eq { Token::LessEqual } else { Token::Less }
                } else {
                    if next_is_eq { Token::GreaterEqual } else { Token::Greater }
                };
            }
            let single = if c == '+' {
                Some(Token::Plus)
            } else if c == '-' {
                Some(Token::Minus)
            } else if c == '*' {
                Some(Token::Multiply)
            } else if c == '/' {
                Some(Token::Divide)
            } else if c == '%' {
                Some(Token::Modulo)
            } else if c == '(' {
                Some(Token::LeftParen)
            } else if c == ')' {
                Some(Token::RightParen)
            } else if c == '[' {
                Some(Token::LeftBracket)
            } else if c == ']' {
                Some(Token::RightBracket)
            } else if c == '{' {
                Some(Token::LeftBrace)
            } else if c == '}' {
                Some(Token::RightBrace)
            } else if c == ',' {
                Some(Token::Comma)
            } else if c == '.' {
                Some(Token::Dot)
            } else if c == ':' {
                Some(Token::Colon)
            } else {
                None
            };
            self.advance();
            match single {
                Some(t) => return t,
                None => {},
            }
        }
    }

    fn keyword_or_identifier(&self, ident: String) -> (r: Token)
        ensures
            r@ == keyword_or_name(ident@),
    {
        let w = chars_of(ident.as_str());
        if word_is(&w, &['t', 'r', 'u', 'e']) {
            Token::Bool(true)
        } else if word_is(&w, &['f', 'a', 'l', 's', 'e']) {
            Token::Bool(false)
        } else if word_is(&w, &['n', 'u', 'l', 'l']) {
            Token::Null
        } else if word_is(&w, &['a', 'n', 'd']) {
            Token::And
        } else if word_is(&w, &['o', 'r']) {
            Token::Or
        } else if word_is(&w, &['n', 'o', 't']) {
            Token::Not
        } else if word_is(&w, &['t', 'r', 'y']) {
            Token::Try
        } else if word_is(&w, &['c', 'a', 't', 'c', 'h']) {
            Token::Catch
        } else if word_is(&w, &['f', 'i', 'n', 'a', 'l', 'l', 'y']) {
            Token::Finally
        } else if word_is(&w, &['e', 'n', 'd', 't', 'r', 'y']) {
            Token::EndTry
        } else if word_is(&w, &['t', 'h', 'r', 'o', 'w']) {
            Token::Throw
        } else if word_is(&w, &['f', 'u', 'n', 'c', 't', 'i', 'o', 'n']) {
            Token::Function
        } else if word_is(&w, &['g', 'l', 'o', 'b', 'a', 'l']) {
            Token::Global
        } else if word_is(&w, &['l', 'o', 'c', 'a', 'l']) {
            Token::Local
        } else if word_is(&w, &['d', 'o']) {
            Token::Do
        } else if word_is(&w, &['e', 'n', 'd', 'f', 'u', 'n', 'c', 't', 'i', 'o', 'n']) {
            Token::EndFunction
        } else if word_is(&w, &['r', 'e', 't', 'u', 'r', 'n']) {
            Token::Return
        } else if word_is(&w, &['p', 'r', 'i', 'n', 't']) {
            Token::Print
        } else {
            Token::Identifier(ident)
        }
    }
}

/// Whether the characters `w` spell the word `k`.
pub fn word_is(w: &Vec<char>, k: &[char]) -> (r: bool)
    ensures
        r == (w@ == k@),
{
    if w.len() != k.len() {
        return false;
    }
    let mut i: usize = 0;
    while i < w.len()
        invariant
            w.len() == k.len(),
            i <= w.len(),
            forall|j: int| 0 <= j < i ==> w@[j] == k@[j],
        decreases w.len() - i,
    {
        if w[i] != k[i] {
            return false;
        }
        i = i + 1;
    }
    assert(w@ == k@);
    true
}

} // verus!
