//! Values that literals stand for, and the data types that the static
//! analyzer assigns to them.
use vstd::prelude::*;
use crate::text::{is_digit, chars_of};

verus! {

/// A literal value.
///
/// A number is kept as its decimal text; the number it stands for is that
/// text's `f64` value (`0.0` where the text is not a number).
#[derive(Debug, PartialEq)]
pub enum Value {
    Number(String),
    String(String),
    Bool(bool),
    Null,
    /// A list of values, in order.
    Array(Vec<Value>),
}

/// A value as the specifications see it.
pub enum ValueView {
    Number(Seq<char>),
    String(Seq<char>),
    Bool(bool),
    Null,
    Array(Seq<ValueView>),
}

/// The views of a list of values.
pub open spec fn value_list(v: Seq<Value>) -> Seq<ValueView>
    decreases v,
{
    if v.len() == 0 {
        Seq::empty()
    } else {
        seq![v[0].view()] + value_list(v.subrange(1, v.len() as int))
    }
}

/// The views of a list of values, element by element.
pub proof fn lemma_value_list(v: Seq<Value>)
    ensures
        value_list(v).len() == v.len(),
        forall|i: int| 0 <= i < v.len() ==> #[trigger] value_list(v)[i] == v[i]@,
    decreases v.len(),
{
    if v.len() == 0 {
        assert(value_list(v) == Seq::<ValueView>::empty());
    } else {
        let rest = v.subrange(1, v.len() as int);
        lemma_value_list(rest);
        assert(value_list(v) == seq![v[0]@] + value_list(rest));
        assert(value_list(v).len() == v.len());
        assert forall|i: int| 0 <= i < v.len() implies #[trigger] value_list(v)[i] == v[i]@ by {
            if i > 0 {
                assert(v.subrange(1, v.len() as int)[i - 1] == v[i]);
            }
        }
    }
}

/// Appending a value appends its view.
pub proof fn lemma_value_list_push(v: Seq<Value>, x: Value)
    ensures
        value_list(v.push(x)) == value_list(v).push(x@),
{
    lemma_value_list(v);
    lemma_value_list(v.push(x));
    assert(value_list(v.push(x)) =~= value_list(v).push(x@));
}

impl View for Value {
    type V = ValueView;

    open spec fn view(&self) -> ValueView
        decreases self,
    {
        match self {
            Value::Number(s) => ValueView::Number(s@),
            Value::String(s) => ValueView::String(s@),
            Value::Bool(b) => ValueView::Bool(*b),
            Value::Null => ValueView::Null,
            Value::Array(v) => ValueView::Array(value_list(v@)),
        }
    }
}

impl Value {
    /// A copy of the value.
    pub fn copy(&self) -> (r: Value)
        ensures
            r@ == self@,
        decreases self,
    {
        match self {
            Value::Number(s) => Value::Number(s.clone()),
            Value::String(s) => Value::String(s.clone()),
            Value::Bool(b) => Value::Bool(*b),
            Value::Null => Value::Null,
            Value::Array(v) => Value::Array(Self::copy_list(v)),
        }
    }

    /// A copy of a list of values.
    pub fn copy_list(v: &Vec<Value>) -> (r: Vec<Value>)
        ensures
            value_list(r@) == value_list(v@),
        decreases v,
    {
        let mut r: Vec<Value> = Vec::new();
        let mut i: usize = 0;
        proof {
            lemma_value_list(v@);
        }
        while i < v.len()
            invariant
                i <= v@.len(),
                r@.len() == i,
                value_list(v@).len() == v@.len(),
                forall|k: int| 0 <= k < v@.len() ==> #[trigger] value_list(v@)[k] == v@[k]@,
                forall|k: int| 0 <= k < i ==> #[trigger] r@[k]@ == v@[k]@,
            decreases v.len() - i,
        {
            let c = v[i].copy();
            r.push(c);
            i = i + 1;
        }
        proof {
            lemma_value_list(r@);
            assert(value_list(r@) =~= value_list(v@));
        }
        r
    }
}

/// The type of a value as the static analyzer sees it.
#[derive(Debug, Clone, Copy, PartialEq, Eq, Structural)]
pub enum DataType {
    Integer,
    Float,
    String,
    Bool,
    Null,
    Mixed,
}


/// The decimal text of a whole number: digits, possibly after a minus sign,
/// possibly followed by a point and zeros only.
pub open spec fn integral_text(t: Seq<char>) -> bool {
    integral_digits(unsigned_part(t))
}

/// The text without its leading minus sign, if it has one.
pub open spec fn unsigned_part(t: Seq<char>) -> Seq<char> {
    if t.len() > 0 && t[0] == '-' { t.drop_first() } else { t }
}

/// Digits, possibly followed by a point and zeros only.
pub open spec fn integral_digits(u: Seq<char>) -> bool {
    &&& u.len() > 0
    &&& is_digit(u[0])
    &&& forall|i: int| 0 <= i < u.len() && !is_digit(#[trigger] u[i])
            ==> u[i] == '.' && forall|j: int| i < j < u.len() ==> u[j] == '0'
}

/// The data type of a value: a number is an integer when its text is that
/// of a whole number and a float otherwise.
pub open spec fn data_type_of(v: ValueView) -> DataType {
    match v {
        ValueView::Number(t) => if integral_text(t) { DataType::Integer } else { DataType::Float },
        ValueView::String(_) => DataType::String,
        ValueView::Bool(_) => DataType::Bool,
        ValueView::Null => DataType::Null,
        ValueView::Array(_) => DataType::Mixed,
    }
}

/// Whether the text is that of a whole number (see `integral_text`).
pub fn is_integral_text(t: &str) -> (r: bool)
    ensures
        r == integral_text(t@),
{
    let c = chars_of(t);
    let start: usize = if c.len() > 0 && c[0] == '-' { 1 } else { 0 };
    let ghost u = unsigned_part(t@);
    proof {
        assert(u =~= c@.subrange(start as int, c@.len() as int));
    }
    if start >= c.len() || !('0' <= c[start] && c[start] <= '9') {
        return false;
    }
    let mut seen_point = false;
    let mut i: usize = start;
    while i < c.len()
        invariant
            c@ == t@,
            start <= i <= c@.len(),
            start < c@.len(),
            u == unsigned_part(t@),
            u =~= c@.subrange(start as int, c@.len() as int),
            is_digit(u[0]),
            !seen_point ==> forall|j: int| 0 <= j < i - start ==> is_digit(#[trigger] u[j]),
            seen_point ==> exists|p: int| 0 <= p < i - start && u[p] == '.'
                && (forall|j: int| 0 <= j < p ==> is_digit(#[trigger] u[j]))
                && (forall|j: int| p < j < i - start ==> #[trigger] u[j] == '0'),
        decreases c.len() - i,
    {
        let ch = c[i];
        if seen_point {
            if ch != '0' {
                proof {
                    let p = choose|p: int| 0 <= p < i - start && u[p] == '.'
                        && (forall|j: int| 0 <= j < p ==> is_digit(#[trigger] u[j]))
                        && (forall|j: int| p < j < i - start ==> #[trigger] u[j] == '0');
                    assert(u[i - start] == ch);
                    assert(!integral_digits(u)) by {
                        if integral_digits(u) {
                            assert(!is_digit(u[p]));
                            assert(p < i - start < u.len());
                            assert(u[i - start] == '0');
                        }
                    }
                }
                return false;
            }
        } else if !('0' <= ch && ch <= '9') {
            if ch != '.' {
                proof {
                    assert(u[i - start] == ch);
                    assert(!integral_digits(u)) by {
                        if integral_digits(u) {
                            assert(!is_digit(u[i - start]));
                        }
                    }
                }
                return false;
            }
            seen_point = true;
            proof {
                assert(u[i - start] == '.');
            }
        }
        i = i + 1;
    }
    proof {
        if seen_point {
            let p = choose|p: int| 0 <= p < i - start && u[p] == '.'
                && (forall|j: int| 0 <= j < p ==> is_digit(#[trigger] u[j]))
                && (forall|j: int| p < j < i - start ==> #[trigger] u[j] == '0');
            assert forall|k: int| 0 <= k < u.len() && !is_digit(#[trigger] u[k])
                implies u[k] == '.' && forall|j: int| k < j < u.len() ==> u[j] == '0' by {
                if k != p {
                    if k < p {
                    } else {
                        assert(u[k] == '0');
                    }
                }
            }
        }
    }
    true
}

impl DataType {
    /// The data type of a value (see `data_type_of`).
    pub fn from_value(v: &Value) -> (r: DataType)
        ensures
            r == data_type_of(v@),
    {
        match v {
            Value::Number(t) => if is_integral_text(t.as_str()) { DataType::Integer } else { DataType::Float },
            Value::String(_) => DataType::String,
            Value::Bool(_) => DataType::Bool,
            Value::Null => DataType::Null,
            Value::Array(_) => DataType::Mixed,
        }
    }
}

} // verus!
