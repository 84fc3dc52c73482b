pub mod error;
pub mod interpreter;
pub mod optimizer;
pub mod parser;
pub mod text;
pub mod value;
pub mod named;
pub mod profiler;
pub mod repl;
