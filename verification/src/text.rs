//! Character classification and small string helpers shared by the lexers,
//! the parse cache and the formatting code.
use vstd::prelude::*;

verus! {

/// What `char::is_alphabetic` says of a character outside ASCII.
pub uninterp spec fn char_is_alphabetic(c: char) -> bool;

/// What `char::is_alphanumeric` says of a character outside ASCII that is
/// not alphabetic.
pub uninterp spec fn char_is_alphanumeric(c: char) -> bool;

/// An ASCII decimal digit.
pub open spec fn is_digit(c: char) -> bool {
    '0' <= c && c <= '9'
}

/// An ASCII letter.
pub open spec fn is_ascii_letter(c: char) -> bool {
    ('a' <= c && c <= 'z') || ('A' <= c && c <= 'Z')
}

/// An ASCII character.
pub open spec fn is_ascii(c: char) -> bool {
    c < '\u{80}'
}

/// `char::is_whitespace`: the characters with the Unicode `White_Space`
/// property: tab, line feed, vertical tab, form feed, carriage return,
/// space, next line, no-break space, ogham space mark, the spaces from en
/// quad to hair space, line separator, paragraph separator, narrow no-break
/// space, medium mathematical space and ideographic space.
pub open spec fn is_ws(c: char) -> bool {
    ||| ('\t' <= c && c <= '\r')
    ||| c == ' '
    ||| c == '\u{85}'
    ||| c == '\u{a0}'
    ||| c == '\u{1680}'
    ||| ('\u{2000}' <= c && c <= '\u{200a}')
    ||| c == '\u{2028}'
    ||| c == '\u{2029}'
    ||| c == '\u{202f}'
    ||| c == '\u{205f}'
    ||| c == '\u{3000}'
}

/// `char::is_alphabetic`: among ASCII characters, the letters; outside
/// ASCII, the Unicode `Alphabetic` characters.
pub open spec fn is_alpha(c: char) -> bool {
    if is_ascii(c) { is_ascii_letter(c) } else { char_is_alphabetic(c) }
}

/// `char::is_alphanumeric`: alphabetic or numeric; among ASCII characters,
/// the letters and the digits.
pub open spec fn is_alnum(c: char) -> bool {
    is_alpha(c) || is_digit(c) || (!is_ascii(c) && char_is_alphanumeric(c))
}

/// `char::is_ascii_digit`.
pub fn ascii_digit(c: char) -> (r: bool)
    ensures
        r == is_digit(c),
{
    '0' <= c && c <= '9'
}

/// `char::is_whitespace` (see `is_ws`).
pub fn whitespace(c: char) -> (r: bool)
    ensures
        r == is_ws(c),
{
    ('\t' <= c && c <= '\r') || c == ' ' || c == '\u{85}' || c == '\u{a0}' || c == '\u{1680}'
        || ('\u{2000}' <= c && c <= '\u{200a}') || c == '\u{2028}' || c == '\u{2029}' || c == '\u{202f}'
        || c == '\u{205f}' || c == '\u{3000}'
}

/// Calls `char::is_alphabetic`; among ASCII characters the documentation
/// makes the letters alphabetic, and only them.
#[verifier::external_body]
pub(crate) fn alphabetic(c: char) -> (r: bool)
    ensures
        r == if is_ascii(c) { is_ascii_letter(c) } else { char_is_alphabetic(c) },
{
    c.is_alphabetic()
}

/// Calls `char::is_alphanumeric`, which the documentation defines as
/// alphabetic or numeric; among ASCII characters that is the letters and
/// the digits.
#[verifier::external_body]
pub(crate) fn alphanumeric(c: char) -> (r: bool)
    ensures
        r == if is_ascii(c) {
            is_ascii_letter(c) || is_digit(c)
        } else {
            char_is_alphabetic(c) || char_is_alphanumeric(c)
        },
{
    c.is_alphanumeric()
}

/// What `str::to_uppercase` gives for a text: its upper case by Unicode's
/// case rules, a function of the text alone.
pub uninterp spec fn upper_text(s: Seq<char>) -> Seq<char>;

/// What `str::to_lowercase` gives for a text: its lower case by Unicode's
/// case rules, a function of the text alone.
pub uninterp spec fn lower_text(s: Seq<char>) -> Seq<char>;

/// Calls `str::to_uppercase`; the result is named by `upper_text`.
#[verifier::external_body]
pub(crate) fn uppercase(s: &str) -> (r: String)
    ensures
        r@ == upper_text(s@),
{
    s.to_uppercase()
}

/// Calls `str::to_lowercase`; the result is named by `lower_text`.
#[verifier::external_body]
pub(crate) fn lowercase(s: &str) -> (r: String)
    ensures
        r@ == lower_text(s@),
{
    s.to_lowercase()
}

/// A non-empty text of decimal digits only.
pub open spec fn all_digits(t: Seq<char>) -> bool {
    t.len() > 0 && forall|i: int| 0 <= i < t.len() ==> is_digit(#[trigger] t[i])
}

/// The number that a text of decimal digits writes.
pub open spec fn digits_value(t: Seq<char>) -> nat
    decreases t.len(),
{
    if t.len() == 0 {
        0
    } else {
        digits_value(t.drop_last()) * 10 + ((t.last() as int - '0' as int) as nat)
    }
}

/// The number that `t` writes when it is made of decimal digits only (see
/// `all_digits`), or `bound` when that number is `bound` or more; `None`
/// for any other text.
pub fn digits_index(t: &str, bound: usize) -> (r: Option<usize>)
    ensures
        match r {
            None => !all_digits(t@),
            Some(k) => all_digits(t@) && k == (if digits_value(t@) < bound { digits_value(t@) } else { bound as nat }),
        },
{
    let v = chars_of(t);
    if v.len() == 0 {
        return None;
    }
    let mut acc: u128 = 0;
    let mut i: usize = 0;
    while i < v.len()
        invariant
            i <= v@.len(),
            v@ == t@,
            acc <= bound,
            forall|j: int| 0 <= j < i ==> is_digit(#[trigger] v@[j]),
            acc == (if digits_value(v@.take(i as int)) < bound { digits_value(v@.take(i as int)) } else { bound as nat }),
        decreases v.len() - i,
    {
        let c = v[i];
        if !ascii_digit(c) {
            return None;
        }
        let d = (c as u32 - '0' as u32) as u128;
        proof {
            assert(v@.take(i + 1).drop_last() =~= v@.take(i as int));
            assert(v@.take(i + 1).last() == c);
        }
        let next = acc * 10 + d;
        acc = if next < bound as u128 { next } else { bound as u128 };
        i = i + 1;
    }
    proof {
        assert(v@.take(v@.len() as int) =~= v@);
    }
    Some(acc as usize)
}

/// Calls `String::push`, which appends one character.
#[verifier::external_body]
pub(crate) fn push_char(s: &mut String, c: char)
    ensures
        final(s)@ == old(s)@.push(c),
{
    s.push(c)
}

/// The characters of a string slice, in order.
pub fn chars_of(s: &str) -> (v: Vec<char>)
    ensures
        v@ == s@,
{
    let mut v: Vec<char> = Vec::new();
    for c in it: s.chars()
        invariant
            v@ == it.seq().take(it.index() as int),
            it.seq() == s@,
    {
        v.push(c);
    }
    v
}

/// Whether two string slices hold the same characters.
pub fn str_eq(a: &str, b: &str) -> (r: bool)
    ensures
        r == (a@ == b@),
{
    let x = chars_of(a);
    let y = chars_of(b);
    if x.len() != y.len() {
        return false;
    }
    let mut i: usize = 0;
    while i < x.len()
        invariant
            x@ == a@,
            y@ == b@,
            x.len() == y.len(),
            i <= x.len(),
            forall|j: int| 0 <= j < i ==> x@[j] == y@[j],
        decreases x.len() - i,
    {
        if x[i] != y[i] {
            return false;
        }
        i = i + 1;
    }
    assert(x@ == y@);
    true
}


/// `s` without its leading whitespace.
pub open spec fn trim_left(s: Seq<char>) -> Seq<char>
    decreases s.len(),
{
    if s.len() > 0 && is_ws(s[0]) {
        trim_left(s.drop_first())
    } else {
        s
    }
}

/// `s` without its trailing whitespace.
pub open spec fn trim_right(s: Seq<char>) -> Seq<char>
    decreases s.len(),
{
    if s.len() > 0 && is_ws(s.last()) {
        trim_right(s.drop_last())
    } else {
        s
    }
}

/// `str::trim`: `s` without leading and trailing whitespace.
pub open spec fn trimmed(s: Seq<char>) -> Seq<char> {
    trim_right(trim_left(s))
}

/// Skipping `i` leading whitespace characters, up to a character that is not
/// whitespace or the end, gives `trim_left`.
pub proof fn lemma_trim_left(s: Seq<char>, i: int)
    requires
        0 <= i <= s.len(),
        forall|j: int| 0 <= j < i ==> is_ws(#[trigger] s[j]),
        i == s.len() || !is_ws(s[i]),
    ensures
        trim_left(s) == s.subrange(i, s.len() as int),
    decreases i,
{
    if i == 0 {
        assert(s.subrange(0, s.len() as int) =~= s);
    } else {
        let t = s.drop_first();
        assert forall|j: int| 0 <= j < i - 1 implies is_ws(#[trigger] t[j]) by {
            assert(t[j] == s[j + 1]);
        }
        lemma_trim_left(t, i - 1);
        assert(t.subrange(i - 1, t.len() as int) =~= s.subrange(i, s.len() as int));
    }
}

/// Dropping trailing whitespace down to index `e` gives `trim_right`.
pub proof fn lemma_trim_right(s: Seq<char>, e: int)
    requires
        0 <= e <= s.len(),
        forall|j: int| e <= j < s.len() ==> is_ws(#[trigger] s[j]),
        e == 0 || !is_ws(s[e - 1]),
    ensures
        trim_right(s) == s.subrange(0, e),
    decreases s.len() - e,
{
    if e == s.len() {
        assert(s.subrange(0, e) =~= s);
    } else {
        let t = s.drop_last();
        assert forall|j: int| e <= j < t.len() implies is_ws(#[trigger] t[j]) by {
            assert(t[j] == s[j]);
        }
        lemma_trim_right(t, e);
        assert(t.subrange(0, e) =~= s.subrange(0, e));
    }
}

/// `trim_left` leaves no leading whitespace.
pub proof fn lemma_trim_left_front(s: Seq<char>)
    ensures
        trim_left(s).len() == 0 || !is_ws(trim_left(s)[0]),
        trim_left(s).len() <= s.len(),
    decreases s.len(),
{
    if s.len() > 0 && is_ws(s[0]) {
        lemma_trim_left_front(s.drop_first());
    }
}

/// `trim_right` keeps a prefix, leaves no trailing whitespace, and keeps
/// a first character that is not whitespace.
pub proof fn lemma_trim_right_shape(s: Seq<char>)
    ensures
        trim_right(s).len() <= s.len(),
        trim_right(s) == s.subrange(0, trim_right(s).len() as int),
        trim_right(s).len() == 0 || !is_ws(trim_right(s).last()),
        s.len() > 0 && !is_ws(s[0]) ==> trim_right(s).len() > 0,
    decreases s.len(),
{
    if s.len() > 0 && is_ws(s.last()) {
        let t = s.drop_last();
        lemma_trim_right_shape(t);
        assert(t.subrange(0, trim_right(t).len() as int) =~= s.subrange(0, trim_right(t).len() as int));
        if s.len() > 0 && !is_ws(s[0]) {
            assert(t.len() > 0);
            assert(t[0] == s[0]);
        }
    } else {
        assert(s.subrange(0, s.len() as int) =~= s);
    }
}

/// Trimming twice is trimming once.
pub proof fn lemma_trimmed_twice(s: Seq<char>)
    ensures
        trimmed(trimmed(s)) == trimmed(s),
{
    let l = trim_left(s);
    let t = trim_right(l);
    lemma_trim_left_front(s);
    lemma_trim_right_shape(l);
    assert(trim_left(t) == t) by {
        if t.len() > 0 {
            assert(t[0] == l[0]);
        }
    }
    lemma_trim_right_shape(t);
    assert(trim_right(t) == t);
}

/// The bounds of the trimmed part of `s`: it is `s[start..end]`.
pub fn trim_bounds(s: &[char]) -> (r: (usize, usize))
    ensures
        r.0 <= r.1 <= s@.len(),
        trimmed(s@) == s@.subrange(r.0 as int, r.1 as int),
{
    let mut i: usize = 0;
    while i < s.len() && whitespace(s[i])
        invariant
            i <= s.len(),
            forall|j: int| 0 <= j < i ==> is_ws(#[trigger] s@[j]),
        decreases s.len() - i,
    {
        i = i + 1;
    }
    proof { lemma_trim_left(s@, i as int); }
    let mut e: usize = s.len();
    while e > i && whitespace(s[e - 1])
        invariant
            i <= e <= s.len(),
            forall|j: int| e <= j < s.len() ==> is_ws(#[trigger] s@[j]),
        decreases e,
    {
        e = e - 1;
    }
    proof {
        let t = s@.subrange(i as int, s@.len() as int);
        assert forall|j: int| e - i <= j < t.len() implies is_ws(#[trigger] t[j]) by {
            assert(t[j] == s@[j + i]);
        }
        if e > i {
            assert(t[e - i - 1] == s@[e - 1]);
        }
        lemma_trim_right(t, e - i);
        assert(t.subrange(0, e - i) =~= s@.subrange(i as int, e as int));
    }
    (i, e)
}

/// The characters of `s[start..end]`.
pub fn slice_chars(s: &[char], start: usize, end: usize) -> (r: Vec<char>)
    requires
        start <= end <= s@.len(),
    ensures
        r@ == s@.subrange(start as int, end as int),
{
    let mut r: Vec<char> = Vec::new();
    let mut i = start;
    while i < end
        invariant
            start <= i <= end,
            end <= s@.len(),
            r@ == s@.subrange(start as int, i as int),
        decreases end - i,
    {
        r.push(s[i]);
        i = i + 1;
        proof {
            assert(s@.subrange(start as int, i as int) =~= s@.subrange(start as int, i - 1).push(s@[i - 1]));
        }
    }
    r
}

/// `s` trimmed.
pub fn trim(s: &[char]) -> (r: Vec<char>)
    ensures
        r@ == trimmed(s@),
        r@.len() <= s@.len(),
{
    let (a, b) = trim_bounds(s);
    slice_chars(s, a, b)
}

/// Whether `s` begins with `p`.
pub fn starts_with(s: &[char], p: &[char]) -> (r: bool)
    ensures
        r == (p@.len() <= s@.len() && s@.subrange(0, p@.len() as int) == p@),
{
    if p.len() > s.len() {
        return false;
    }
    let mut i: usize = 0;
    while i < p.len()
        invariant
            p@.len() <= s@.len(),
            i <= p@.len(),
            forall|j: int| 0 <= j < i ==> s@[j] == p@[j],
        decreases p.len() - i,
    {
        if s[i] != p[i] {
            assert(s@.subrange(0, p@.len() as int)[i as int] != p@[i as int]);
            return false;
        }
        i = i + 1;
    }
    assert(s@.subrange(0, p@.len() as int) =~= p@);
    true
}

/// Whether `s` ends with `p`.
pub fn ends_with(s: &[char], p: &[char]) -> (r: bool)
    ensures
        r == (p@.len() <= s@.len() && s@.subrange(s@.len() - p@.len(), s@.len() as int) == p@),
{
    if p.len() > s.len() {
        return false;
    }
    let off = s.len() - p.len();
    let mut i: usize = 0;
    while i < p.len()
        invariant
            p@.len() <= s@.len(),
            off == s@.len() - p@.len(),
            off + p.len() == s.len(),
            i <= p@.len(),
            forall|j: int| 0 <= j < i ==> s@[off + j] == p@[j],
        decreases p.len() - i,
    {
        if s[off + i] != p[i] {
            assert(s@.subrange(off as int, s@.len() as int)[i as int] != p@[i as int]);
            return false;
        }
        i = i + 1;
    }
    assert(s@.subrange(off as int, s@.len() as int) =~= p@);
    true
}


/// `s.replace("  ", " ")`: each pair of spaces, matched left to right
/// without overlap, becomes one space.
pub open spec fn halve_double_spaces(s: Seq<char>) -> Seq<char>
    decreases s.len(),
{
    if s.len() == 0 {
        Seq::empty()
    } else if s.len() >= 2 && s[0] == ' ' && s[1] == ' ' {
        seq![' '] + halve_double_spaces(s.skip(2))
    } else {
        seq![s[0]] + halve_double_spaces(s.skip(1))
    }
}

/// Replaces each pair of spaces with one space (see `halve_double_spaces`).
pub fn replace_double_spaces(s: &[char]) -> (r: Vec<char>)
    ensures
        r@ == halve_double_spaces(s@),
{
    let mut out: Vec<char> = Vec::new();
    let mut i: usize = 0;
    proof {
        assert(s@.skip(0) =~= s@);
        assert(out@ + halve_double_spaces(s@) =~= halve_double_spaces(s@));
    }
    while i < s.len()
        invariant
            i <= s@.len(),
            out@ + halve_double_spaces(s@.skip(i as int)) == halve_double_spaces(s@),
        decreases s.len() - i,
    {
        let ghost rest = s@.skip(i as int);
        if i + 1 < s.len() && s[i] == ' ' && s[i + 1] == ' ' {
            out.push(' ');
            proof {
                assert(rest[0] == ' ' && rest[1] == ' ');
                assert(rest.skip(2) =~= s@.skip(i + 2));
                assert(halve_double_spaces(rest) == seq![' '] + halve_double_spaces(rest.skip(2)));
                assert(out@ + halve_double_spaces(s@.skip(i + 2)) =~= halve_double_spaces(s@));
            }
            i = i + 2;
        } else {
            out.push(s[i]);
            proof {
                assert(rest[0] == s@[i as int]);
                assert(rest.skip(1) =~= s@.skip(i + 1));
                assert(halve_double_spaces(rest) == seq![rest[0]] + halve_double_spaces(rest.skip(1)));
                assert(out@ + halve_double_spaces(s@.skip(i + 1)) =~= halve_double_spaces(s@));
            }
            i = i + 1;
        }
    }
    proof {
        assert(s@.skip(i as int) =~= Seq::<char>::empty());
        assert(out@ + Seq::<char>::empty() =~= out@);
    }
    out
}

/// The decimal digit for `d` below ten.
pub open spec fn digit_char(d: nat) -> char {
    if d == 0 { '0' } else if d == 1 { '1' } else if d == 2 { '2' } else if d == 3 { '3' }
    else if d == 4 { '4' } else if d == 5 { '5' } else if d == 6 { '6' } else if d == 7 { '7' }
    else if d == 8 { '8' } else { '9' }
}

/// The decimal text of `n`, without leading zeros.
pub open spec fn decimal(n: nat) -> Seq<char>
    decreases n,
{
    if n < 10 {
        seq![digit_char(n)]
    } else {
        decimal(n / 10).push(digit_char(n % 10))
    }
}

/// The decimal digit for `d` below ten.
pub fn digit(d: u64) -> (c: char)
    requires
        d < 10,
    ensures
        c == digit_char(d as nat),
{
    if d == 0 { '0' } else if d == 1 { '1' } else if d == 2 { '2' } else if d == 3 { '3' }
    else if d == 4 { '4' } else if d == 5 { '5' } else if d == 6 { '6' } else if d == 7 { '7' }
    else if d == 8 { '8' } else { '9' }
}

/// The decimal text of `n` (see `decimal`).
pub fn decimal_string(n: u64) -> (r: String)
    ensures
        r@ == decimal(n as nat),
    decreases n,
{
    if n < 10 {
        let mut r = String::new();
        push_char(&mut r, digit(n));
        assert(r@ =~= seq![digit_char(n as nat)]);
        r
    } else {
        let mut r = decimal_string(n / 10);
        push_char(&mut r, digit(n % 10));
        r
    }
}

/// The decimal text of a wide number (see `decimal`).
pub fn decimal_string_wide(n: u128) -> (r: String)
    ensures
        r@ == decimal(n as nat),
    decreases n,
{
    if n < 10 {
        let mut r = String::new();
        push_char(&mut r, digit(n as u64));
        assert(r@ =~= seq![digit_char(n as nat)]);
        r
    } else {
        let mut r = decimal_string_wide(n / 10);
        push_char(&mut r, digit((n % 10) as u64));
        r
    }
}

/// Appends the characters of `b` to `a`.
pub fn push_string(a: &mut String, b: &str)
    ensures
        final(a)@ == old(a)@ + b@,
{
    let v = chars_of(b);
    let mut i: usize = 0;
    while i < v.len()
        invariant
            v@ == b@,
            i <= v@.len(),
            a@ == old(a)@ + v@.take(i as int),
        decreases v.len() - i,
    {
        push_char(a, v[i]);
        i = i + 1;
        proof {
            assert(old(a)@ + v@.take(i as int) =~= old(a)@ + v@.take(i - 1) + seq![v@[i - 1]]);
        }
    }
    proof {
        assert(v@.take(v@.len() as int) =~= v@);
    }
}


/// The number of bytes of a character's UTF-8 encoding.
pub open spec fn utf8_width(c: char) -> nat {
    if c <= '\u{7f}' {
        1
    } else if c <= '\u{7ff}' {
        2
    } else if c <= '\u{ffff}' {
        3
    } else {
        4
    }
}

/// The number of bytes of the UTF-8 encoding of `s`: what `str::len` gives.
pub open spec fn utf8_len(s: Seq<char>) -> nat
    decreases s.len(),
{
    if s.len() == 0 {
        0
    } else {
        utf8_len(s.drop_last()) + utf8_width(s.last())
    }
}

/// Whether the UTF-8 encoding of `s` is longer than `limit` bytes.
pub fn utf8_longer_than(s: &[char], limit: usize) -> (r: bool)
    requires
        limit < usize::MAX - 4,
    ensures
        r == (utf8_len(s@) > limit),
{
    let mut total: usize = 0;
    let mut i: usize = 0;
    while i < s.len()
        invariant
            i <= s@.len(),
            limit < usize::MAX - 4,
            total == utf8_len(s@.take(i as int)),
            total <= limit,
        decreases s.len() - i,
    {
        let c = s[i];
        let w: usize = if c <= '\u{7f}' { 1 } else if c <= '\u{7ff}' { 2 } else if c <= '\u{ffff}' { 3 } else { 4 };
        total = total + w;
        i = i + 1;
        proof {
            assert(s@.take(i as int).drop_last() =~= s@.take(i - 1));
        }
        if total > limit {
            proof { lemma_utf8_len_prefix(s@, i as int); }
            return true;
        }
    }
    proof {
        assert(s@.take(i as int) =~= s@);
    }
    false
}

/// The encoding of a prefix is no longer than that of the whole.
pub proof fn lemma_utf8_len_prefix(s: Seq<char>, i: int)
    requires
        0 <= i <= s.len(),
    ensures
        utf8_len(s.take(i)) <= utf8_len(s),
    decreases s.len() - i,
{
    if i < s.len() {
        lemma_utf8_len_prefix(s, i + 1);
        assert(s.take(i + 1).drop_last() =~= s.take(i));
    } else {
        assert(s.take(i) =~= s);
    }
}

/// A string holding the characters of `s`.
pub fn owned(s: &str) -> (r: String)
    ensures
        r@ == s@,
{
    let mut r = String::new();
    push_string(&mut r, s);
    proof {
        assert(Seq::<char>::empty() + s@ =~= s@);
    }
    r
}

/// A string holding the given characters, in order.
pub fn string_of(v: &[char]) -> (r: String)
    ensures
        r@ == v@,
{
    let mut r = String::new();
    let mut i: usize = 0;
    while i < v.len()
        invariant
            i <= v.len(),
            r@ == v@.take(i as int),
        decreases v.len() - i,
    {
        push_char(&mut r, v[i]);
        i = i + 1;
        proof {
            assert(v@.take(i as int) == v@.take((i - 1) as int).push(v@[i - 1]));
        }
    }
    proof {
        assert(v@.take(v.len() as int) == v@);
    }
    r
}

} // verus!
