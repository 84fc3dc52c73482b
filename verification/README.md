# data_code

The core of the DataCode scripting language, with its behaviour stated in
contracts and proved with Verus.

- `src/parser`: the character-level lexer and expression parser, the token
  lexer, and the statement and expression parsers over tokens. Each parser
  is proved to agree with a grammar written as spec functions.
- `src/optimizer`: the parse cache, the static analyzer and the rewrites of
  the expression tree (constant folding, dead-code removal).
- `src/interpreter`: the interpreter. Variable scopes, user functions,
  call frames and the exception stack; the evaluation of expressions
  (`expressions.rs`: operators, list literals, members such as `len`,
  `first`, `last`, `upper`, `lower`, `trim`, and indexes of lists and
  strings); and the running of programs (`run.rs`): single lines, `for`
  loops over lists, `if` and `try`/`catch`/`finally` blocks, function
  definitions and whole programs. Expressions in programs are read by the
  token parser (`src/parser/mod.rs`). User functions have their own scope
  and are called from any expression, nested and recursive calls
  included, each call taking a frame of the call stack, up to its limit;
  spread arguments (`f(*list)`) pass a list's elements, and named
  arguments go to the built-in functions. Each of these is stated as a
  relation between the variables before and after it and how it ended,
  and proved. Number arithmetic and the built-in functions are supplied by
  the caller through the `NumberArithmetic`, `NumberText` and `Builtins`
  traits.

  Limits: values hold no objects, so object literals, and spreading or
  indexing an object, are errors; an index must be a whole number written
  with digits; named arguments to a user function are an error; a block
  (function, `for`, `if`, `try`) opened inside the body of a function, a
  loop, an `if` or a `try` is an error; calls
  nest on the machine's stack, so very deep recursion can exhaust it
  before the call stack's limit is reached.
- `src/profiler`: the profiler, the performance logger and the
  optimization monitor.
- `src/repl.rs`: the decisions of the interactive prompt (multi-line
  blocks, special commands).
- `app/`: the command-line program: the prompt and file runner (which runs
  programs through the library's interpreter), JSON export, log files, and
  the number arithmetic and figures that need floating point.
- `tests/`: tests of the library on concrete values.
