//! Errors of the DataCode library.
use vstd::prelude::*;

verus! {

/// An error: a syntax error at a line and column, or an error at run time
/// at a line.
#[derive(Debug, Clone)]
pub enum DataCodeError {
    SyntaxError { message: String, line: usize, column: usize },
    RuntimeError { message: String, line: usize },
}

impl DataCodeError {
    /// A syntax error.
    pub fn syntax_error(message: String, line: usize, column: usize) -> (r: Self)
        ensures
            r matches DataCodeError::SyntaxError { message: m, line: l, column: c }
                && m@ == message@ && l == line && c == column,
    {
        DataCodeError::SyntaxError { message, line, column }
    }

    /// An error at run time.
    pub fn runtime_error(message: String, line: usize) -> (r: Self)
        ensures
            r matches DataCodeError::RuntimeError { message: m, line: l } && m@ == message@ && l == line,
    {
        DataCodeError::RuntimeError { message, line }
    }
}

} // verus!
