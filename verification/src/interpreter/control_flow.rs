//! Truth values of conditions in control flow.
use vstd::prelude::*;
use crate::value::{Value, ValueView};
use crate::optimizer::ast::NumberArithmetic;

verus! {

/// The truth of a value that is not a number: a truth value itself, a
/// non-empty string or list, never `null`.
pub open spec fn truth(v: ValueView) -> bool {
    match v {
        ValueView::Bool(b) => b,
        ValueView::String(s) => s.len() > 0,
        ValueView::Null => false,
        ValueView::Number(_) => true,
        ValueView::Array(v) => v.len() > 0,
    }
}

/// Runs control-flow constructs; here, decides their conditions.
pub struct ControlFlowHandler;

impl ControlFlowHandler {
    /// The truth of a condition's value (see `truth`); a number is true
    /// unless `numbers` finds it zero.
    pub fn to_bool<N: NumberArithmetic>(value: &Value, numbers: &N) -> (r: bool)
        ensures
            !(value@ is Number) ==> r == truth(value@),
    {
        match value {
            Value::Bool(b) => *b,
            Value::Number(t) => !numbers.is_zero(t.as_str()),
            Value::String(s) => !s.as_str().is_empty(),
            Value::Null => false,
            Value::Array(v) => {
                proof { crate::value::lemma_value_list(v@); }
                v.len() > 0
            },
        }
    }
}

} // verus!
