use std::cell::RefCell;

use data_code::error::DataCodeError;
use data_code::interpreter::blocks::parse_function_definition;
use data_code::interpreter::call_frame::{CallStack, NumberText};
use data_code::interpreter::expressions::{Builtins, ExpressionEvaluator};
use data_code::interpreter::run::Flow;
use data_code::interpreter::user_functions::UserFunctionManager;
use data_code::interpreter::variables::VariableManager;
use data_code::interpreter::Interpreter;
use data_code::optimizer::ast::NumberArithmetic;
use data_code::parser::expression::Parser;
use data_code::parser::tokens::BinaryOp;
use data_code::parser::ast::Expr;
use data_code::parser::tokens::Expr as Tree;
use data_code::value::Value;

struct Nums;

fn num(t: &str) -> f64 {
    t.parse().unwrap_or(0.0)
}

impl NumberArithmetic for Nums {
    fn arithmetic(&self, a: &str, op: BinaryOp, b: &str) -> String {
        let (x, y) = (num(a), num(b));
        let r = match op {
            BinaryOp::Add => x + y,
            BinaryOp::Subtract => x - y,
            BinaryOp::Multiply => x * y,
            BinaryOp::Divide => x / y,
            BinaryOp::Modulo => x % y,
            _ => f64::NAN,
        };
        format!("{}", r)
    }
    fn is_zero(&self, a: &str) -> bool {
        num(a) == 0.0
    }
    fn compare(&self, a: &str, op: BinaryOp, b: &str) -> bool {
        let (x, y) = (num(a), num(b));
        match op {
            BinaryOp::Less => x < y,
            BinaryOp::Greater => x > y,
            BinaryOp::LessEqual => x <= y,
            BinaryOp::GreaterEqual => x >= y,
            BinaryOp::Equal => (x - y).abs() < f64::EPSILON,
            _ => false,
        }
    }
    fn negate(&self, a: &str) -> String {
        format!("{}", -num(a))
    }
    fn second_is_smaller(&self, a: &str, b: &str) -> bool {
        num(b) < num(a)
    }
}

impl NumberText for Nums {
    fn display_text(&self, a: &str) -> String {
        format!("{}", num(a))
    }
}

struct Printer {
    printed: RefCell<Vec<String>>,
}

impl Builtins for Printer {
    fn call_builtin(
        &self,
        name: &str,
        args: Vec<Value>,
        _named: Vec<(String, Value)>,
        line: usize,
    ) -> Result<Value, DataCodeError> {
        if name == "print" {
            let texts: Vec<String> = args.iter().map(|v| format!("{:?}", v)).collect();
            self.printed.borrow_mut().push(texts.join(" "));
            Ok(Value::Null)
        } else {
            Err(DataCodeError::RuntimeError { message: format!("Unknown function: {}", name), line })
        }
    }
}

fn printer() -> Printer {
    Printer { printed: RefCell::new(Vec::new()) }
}

fn number(t: &str) -> Value {
    Value::Number(t.to_string())
}

fn eval(vm: &VariableManager, text: &str) -> Result<Value, DataCodeError> {
    let fm = UserFunctionManager::new();
    let e = Parser::new(text).parse_expression()?;
    ExpressionEvaluator::new(vm, &fm, 3).evaluate(&e, &Nums, &printer())
}

fn lines(v: &[&str]) -> Vec<String> {
    v.iter().map(|s| s.to_string()).collect()
}

#[test]
fn evaluate_operators() {
    let mut vm = VariableManager::new();
    vm.set_variable("x".to_string(), number("5"), true);
    assert_eq!(eval(&vm, "x + 2").unwrap(), number("7"));
    assert_eq!(eval(&vm, "(x - 1) * 3").unwrap(), number("12"));
    assert_eq!(eval(&vm, "'ab' + 'cd'").unwrap(), Value::String("abcd".to_string()));
    assert_eq!(eval(&vm, "'n=' + x").unwrap(), Value::String("n=5".to_string()));
    assert_eq!(eval(&vm, "'abc' < 'abd'").unwrap(), Value::Bool(true));
    assert_eq!(eval(&vm, "'b' <= 'a'").unwrap(), Value::Bool(false));
    assert_eq!(eval(&vm, "x > 4 and 'a' == 'a'").unwrap(), Value::Bool(true));
    assert_eq!(eval(&vm, "not true").unwrap(), Value::Bool(false));
    assert_eq!(eval(&vm, "-x").unwrap(), number("-5"));
    assert_eq!(eval(&vm, "true == 1").unwrap(), Value::Bool(false));
}

#[test]
fn evaluate_errors() {
    let vm = VariableManager::new();
    match eval(&vm, "y + 1") {
        Err(DataCodeError::RuntimeError { message, line }) => {
            assert_eq!(message, "Variable 'y' not found");
            assert_eq!(line, 3);
        }
        other => panic!("{:?}", other),
    }
    match eval(&vm, "1 / 0") {
        Err(DataCodeError::RuntimeError { message, .. }) => assert_eq!(message, "Division by zero"),
        other => panic!("{:?}", other),
    }
    assert!(eval(&vm, "true - 1").is_err());
    assert!(eval(&vm, "-'a'").is_err());
}

#[test]
fn run_lines_declare_assign_and_print() {
    let mut it = Interpreter::new();
    let p = printer();
    let body = lines(&["global x = 1 + 2", "y = x * 2", "print(x, y)", "# note", "x"]);
    let r = it.run_lines(&body, false, false, &Nums, &p);
    assert!(matches!(r, Ok(Flow::Normal)));
    assert_eq!(it.get_variable("x"), Some(&number("3")));
    assert_eq!(it.get_variable("y"), Some(&number("6")));
    assert_eq!(p.printed.borrow().len(), 1);
}

#[test]
fn run_lines_stop_at_return_and_failure() {
    let mut it = Interpreter::new();
    let p = printer();
    let r = it.run_lines(&lines(&["global a = 1", "return a + 1", "global a = 9"]), true, false, &Nums, &p);
    assert!(matches!(r, Ok(Flow::Return(ref v)) if *v == number("2")));
    assert_eq!(it.get_variable("a"), Some(&number("1")));
    let r = it.run_lines(&lines(&["global b = missing", "global a = 7"]), true, false, &Nums, &p);
    assert!(r.is_err());
    assert_eq!(it.get_variable("a"), Some(&number("1")));
    assert_eq!(it.get_variable("b"), None);
}

#[test]
fn for_loop_binds_each_item() {
    let mut it = Interpreter::new();
    let p = printer();
    it.set_variable("total".to_string(), number("0"), true);
    let items = vec![number("1"), number("2"), number("3")];
    let r = it.execute_for_loop("i", items, &lines(&["global total = total + i"]), &Nums, &p);
    assert!(matches!(r, Ok(Flow::Normal)));
    assert_eq!(it.get_variable("total"), Some(&number("6")));
    assert_eq!(it.get_variable("i"), None);
    assert_eq!(it.active_loop_count, 0);
    assert!(!it.variable_manager.is_in_loop());
}

#[test]
fn for_loop_break_and_return() {
    let mut it = Interpreter::new();
    let p = printer();
    it.set_variable("total".to_string(), number("0"), true);
    let items = vec![number("1"), number("2"), number("3")];
    let body = lines(&["global total = total + i", "break"]);
    assert!(matches!(it.execute_for_loop("i", items, &body, &Nums, &p), Ok(Flow::Normal)));
    assert_eq!(it.get_variable("total"), Some(&number("1")));
    let items = vec![number("4"), number("5")];
    assert!(it.execute_for_loop("i", vec![number("4")], &lines(&["return i"]), &Nums, &p).is_err());
    assert_eq!(it.active_loop_count, 1);
    it.active_loop_count = 0;
    it.variable_manager.exit_loop_scope();
    it.variable_manager.enter_function_scope();
    match it.execute_for_loop("i", items, &lines(&["return i * 10"]), &Nums, &p) {
        Ok(Flow::Return(v)) => assert_eq!(v, number("40")),
        other => panic!("{:?}", other),
    }
    assert_eq!(it.active_loop_count, 0);
}

#[test]
fn for_loop_failure_keeps_scope_open() {
    let mut it = Interpreter::new();
    let p = printer();
    let r = it.execute_for_loop("i", vec![number("1")], &lines(&["global z = nope"]), &Nums, &p);
    assert!(r.is_err());
    assert_eq!(it.active_loop_count, 1);
    assert!(it.variable_manager.is_in_loop());
}

#[test]
fn user_function_calls() {
    let mut it = Interpreter::new();
    let p = printer();
    it.define_function("add".to_string(), lines(&["a", "b"]), lines(&["local s = a + b", "return s"]), true).unwrap();
    it.define_function("nothing".to_string(), vec![], lines(&["local t = 1"]), true).unwrap();
    assert_eq!(it.call_user_function("add", vec![number("2"), number("3")], &Nums, &p).unwrap(), number("5"));
    assert_eq!(it.call_user_function("nothing", vec![], &Nums, &p).unwrap(), Value::Null);
    assert!(it.call_user_function("add", vec![number("1")], &Nums, &p).is_err());
    assert!(it.call_user_function("missing", vec![], &Nums, &p).is_err());
    assert_eq!(it.variable_manager.function_depth(), 0);
    assert!(it.call_stack.is_empty());
    assert_eq!(it.get_variable("s"), None);
}

#[test]
fn evaluate_list_literal() {
    let mut vm = VariableManager::new();
    vm.set_variable("x".to_string(), number("2"), true);
    match eval(&vm, "[1, x + 1, 'a']").unwrap() {
        Value::Array(items) => assert_eq!(items, vec![number("1"), number("3"), Value::String("a".to_string())]),
        other => panic!("{:?}", other),
    }
    assert!(eval(&vm, "[1, nope]").is_err());
}

#[test]
fn program_runs_loops_functions_ifs_and_trys() {
    let mut it = Interpreter::new();
    let p = printer();
    let program = lines(&[
        "# a program",
        "global total = 0",
        "for x in [1, 2, 3] do",
        "  global total = total + x",
        "next x",
        "function double(n) do",
        "  return n * 2",
        "endfunction",
        "if total > 5 do",
        "  global big = true",
        "else",
        "  global big = false",
        "endif",
        "try",
        "  global q = missing",
        "catch err",
        "  global caught = err",
        "endtry",
        "print(total, big)",
    ]);
    let r = it.execute_multiline(&program, &Nums, &p);
    assert!(matches!(r, Ok(Flow::Normal)), "{:?}", r);
    assert_eq!(it.get_variable("total"), Some(&number("6")));
    assert_eq!(it.get_variable("big"), Some(&Value::Bool(true)));
    assert_eq!(it.get_variable("caught"), Some(&Value::String("Variable 'missing' not found".to_string())));
    assert_eq!(it.get_variable("q"), None);
    assert_eq!(p.printed.borrow().len(), 1);
    assert_eq!(it.call_user_function("double", vec![number("5")], &Nums, &p).unwrap(), number("10"));
    assert_eq!(it.active_loop_count, 0);
    assert!(it.exception_stack.is_empty());
}

#[test]
fn program_errors() {
    let mut it = Interpreter::new();
    let p = printer();
    let r = it.execute_multiline(&lines(&["global a = 1", "global b = a +", "global c = 3"]), &Nums, &p);
    assert!(r.is_err());
    assert_eq!(it.get_variable("c"), None);
    let r = it.execute_multiline(&lines(&["\"\"\" open", "text"]), &Nums, &p);
    match r {
        Err(DataCodeError::SyntaxError { message, .. }) => assert_eq!(message, "Unclosed multiline comment"),
        other => panic!("{:?}", other),
    }
    let r = it.execute_multiline(&lines(&["for x in 5 do", "next x"]), &Nums, &p);
    assert!(r.is_err());
}

#[test]
fn function_definitions() {
    let f = parse_function_definition(&lines(&["local function f(a, b ) do", "  return a", "endfunction", "x"]), 1).unwrap();
    assert_eq!(f.name, "f");
    assert_eq!(f.parameters, lines(&["a", "b"]));
    assert_eq!(f.body, lines(&["  return a"]));
    assert!(!f.is_global);
    let g = parse_function_definition(&lines(&["function g() do"]), 1).unwrap();
    assert!(g.parameters.is_empty() && g.body.is_empty() && g.is_global);
    let errors = [
        ("fun f() do", "Invalid function definition"),
        ("function f()", "Function definition must end with 'do'"),
        ("function f do", "Missing parentheses in function definition"),
        ("function f(a do", "Missing closing parenthesis in function definition"),
    ];
    for (header, message) in errors {
        match parse_function_definition(&lines(&[header]), 4) {
            Err(DataCodeError::SyntaxError { message: m, line, .. }) => {
                assert_eq!(m, message);
                assert_eq!(line, 4);
            }
            other => panic!("{} gave {:?}", header, other),
        }
    }
}

#[test]
fn try_finally_and_joined_declarations() {
    let mut it = Interpreter::new();
    let p = printer();
    let r = it.execute_multiline(
        &lines(&["try", "  global a = missing", "finally", "  global f = 1", "endtry"]),
        &Nums,
        &p,
    );
    assert!(r.is_err());
    assert_eq!(it.get_variable("f"), Some(&number("1")));
    let r = it.execute_multiline(
        &lines(&["try", "  global b = 2", "catch e", "  global c = 3", "finally", "  global d = nope", "endtry"]),
        &Nums,
        &p,
    );
    assert!(r.is_err());
    assert_eq!(it.get_variable("b"), Some(&number("2")));
    assert_eq!(it.get_variable("c"), None);
    assert!(it.exception_stack.is_empty());
    // The two lines of the declaration run joined by a line feed.
    let r = it.execute_multiline(&lines(&["global xs = [1,", "  2, 3]", "global n = xs.len"]), &Nums, &p);
    assert!(matches!(r, Ok(Flow::Normal)), "{:?}", r);
    assert_eq!(it.get_variable("xs"), Some(&Value::Array(vec![number("1"), number("2"), number("3")])));
    assert_eq!(it.get_variable("n"), Some(&number("3")));
}

#[test]
fn calls_keep_caller_scopes() {
    let mut it = Interpreter::new();
    let p = printer();
    it.define_function("f".to_string(), lines(&["a"]), lines(&["local t = a", "global g = a", "return t"]), true)
        .unwrap();
    it.variable_manager.enter_function_scope();
    it.set_variable("t".to_string(), number("1"), false);
    assert_eq!(it.call_user_function("f", vec![number("7")], &Nums, &p).unwrap(), number("7"));
    assert_eq!(it.get_variable("t"), Some(&number("1")));
    assert_eq!(it.get_variable("g"), Some(&number("7")));
    assert_eq!(it.variable_manager.function_depth(), 1);
}

#[test]
fn user_functions_called_from_expressions() {
    let mut it = Interpreter::new();
    let p = printer();
    let program = lines(&[
        "function greet(name) do",
        "  return 'Hello, ' + name",
        "endfunction",
        "function double(n) do",
        "  return n * 2",
        "endfunction",
        "global message = greet('DataCode')",
        "global y = double(double(3)) + 1",
        "print(greet('you'))",
    ]);
    let r = it.execute_multiline(&program, &Nums, &p);
    assert!(matches!(r, Ok(Flow::Normal)), "{:?}", r);
    assert_eq!(it.get_variable("message"), Some(&Value::String("Hello, DataCode".to_string())));
    assert_eq!(it.get_variable("y"), Some(&number("13")));
    assert_eq!(p.printed.borrow().len(), 1);
    assert!(it.call_stack.is_empty());
    assert_eq!(it.variable_manager.function_depth(), 0);
}

#[test]
fn calls_stop_at_the_stack_limit() {
    let mut it = Interpreter::new();
    let p = printer();
    it.call_stack = CallStack::new(20);
    it.define_function("down".to_string(), lines(&["n"]), lines(&["return down(n - 1)"]), true).unwrap();
    assert!(it.call_user_function("down", vec![number("5")], &Nums, &p).is_err());
    assert!(it.call_stack.is_empty());
    assert_eq!(it.variable_manager.function_depth(), 0);
    let r = it.execute_multiline(&lines(&["global x = down(1)"]), &Nums, &p);
    assert!(r.is_err());
    assert_eq!(it.get_variable("x"), None);
}

fn member(object: Value, name: &str) -> Expr {
    Expr::Member { object: Box::new(Expr::Literal(object)), member: name.to_string() }
}

fn index(object: Value, i: &str) -> Expr {
    Expr::Index { object: Box::new(Expr::Literal(object)), index: Box::new(Expr::Literal(number(i))) }
}

#[test]
fn members_and_indexes() {
    let vm = VariableManager::new();
    let fm = UserFunctionManager::new();
    let ev = ExpressionEvaluator::new(&vm, &fm, 1);
    let p = printer();
    let word = Value::String("привет".to_string());
    assert_eq!(ev.evaluate(&member(word.copy(), "len"), &Nums, &p).unwrap(), number("6"));
    assert_eq!(ev.evaluate(&member(Value::String("abc".to_string()), "upper"), &Nums, &p).unwrap(),
        Value::String("ABC".to_string()));
    assert_eq!(ev.evaluate(&member(Value::String("AbC".to_string()), "lower"), &Nums, &p).unwrap(),
        Value::String("abc".to_string()));
    assert_eq!(ev.evaluate(&member(Value::String("  x ".to_string()), "trim"), &Nums, &p).unwrap(),
        Value::String("x".to_string()));
    assert!(ev.evaluate(&member(word.copy(), "size"), &Nums, &p).is_err());
    let list = Value::Array(vec![number("1"), number("2"), number("3")]);
    assert_eq!(ev.evaluate(&member(list.copy(), "len"), &Nums, &p).unwrap(), number("3"));
    assert_eq!(ev.evaluate(&member(list.copy(), "first"), &Nums, &p).unwrap(), number("1"));
    assert_eq!(ev.evaluate(&member(list.copy(), "last"), &Nums, &p).unwrap(), number("3"));
    assert_eq!(ev.evaluate(&member(Value::Array(vec![]), "first"), &Nums, &p).unwrap(), Value::Null);
    assert!(ev.evaluate(&member(number("1"), "len"), &Nums, &p).is_err());
    assert_eq!(ev.evaluate(&index(list.copy(), "1"), &Nums, &p).unwrap(), number("2"));
    assert!(ev.evaluate(&index(list.copy(), "3"), &Nums, &p).is_err());
    assert!(ev.evaluate(&index(list.copy(), "1.5"), &Nums, &p).is_err());
    assert_eq!(ev.evaluate(&index(word.copy(), "1"), &Nums, &p).unwrap(), Value::String("р".to_string()));
}

#[test]
fn calls_in_conditions_and_iterables() {
    let mut it = Interpreter::new();
    let p = printer();
    let program = lines(&[
        "function items() do",
        "  return [1, 2, 3]",
        "endfunction",
        "function big(n) do",
        "  return n > 1",
        "endfunction",
        "global total = 0",
        "for x in items() do",
        "  global total = total + x",
        "next x",
        "if big(total) do",
        "  global verdict = 'big'",
        "else",
        "  global verdict = 'small'",
        "endif",
    ]);
    let r = it.execute_multiline(&program, &Nums, &p);
    assert!(matches!(r, Ok(Flow::Normal)), "{:?}", r);
    assert_eq!(it.get_variable("total"), Some(&number("6")));
    assert_eq!(it.get_variable("verdict"), Some(&Value::String("big".to_string())));
}

#[test]
fn bare_for_and_long_lines_are_refused() {
    let mut it = Interpreter::new();
    let p = printer();
    let r = it.execute_multiline(&lines(&["global a = 1", "for do"]), &Nums, &p);
    assert!(r.is_err());
    assert_eq!(it.get_variable("a"), None);
}

#[test]
fn members_indexes_spreads_and_named_arguments_in_programs() {
    let mut it = Interpreter::new();
    let p = printer();
    let program = lines(&[
        "function add(a, b) do",
        "  return a + b",
        "endfunction",
        "global word = 'привет'",
        "global n = word.len",
        "global first = word[0]",
        "global pair = [2, 5]",
        "global sum = add(*pair)",
        "global up = 'abc'.upper",
    ]);
    let r = it.execute_multiline(&program, &Nums, &p);
    assert!(matches!(r, Ok(Flow::Normal)), "{:?}", r);
    assert_eq!(it.get_variable("n"), Some(&number("6")));
    assert_eq!(it.get_variable("first"), Some(&Value::String("п".to_string())));
    assert_eq!(it.get_variable("sum"), Some(&number("7")));
    assert_eq!(it.get_variable("up"), Some(&Value::String("ABC".to_string())));
    let r = it.execute_multiline(&lines(&["global bad = add(1, b=2)"]), &Nums, &p);
    match r {
        Err(DataCodeError::RuntimeError { message, .. }) => {
            assert_eq!(message, "User functions do not support named arguments yet")
        },
        other => panic!("{:?}", other),
    }
    let r = it.execute_multiline(&lines(&["global bad = add(*3)"]), &Nums, &p);
    assert!(r.is_err());
    assert_eq!(it.get_variable("bad"), None);
}

#[test]
fn interpreter_evaluates_members_and_calls() {
    let mut it = Interpreter::new();
    let p = printer();
    let e = Tree::Member {
        object: Box::new(Tree::Literal(Value::String("привет".to_string()))),
        member: "len".to_string(),
    };
    assert_eq!(it.evaluate_expression(&e, &Nums, &p).unwrap(), number("6"));
    it.define_function("twice".to_string(), lines(&["x"]), lines(&["return x * 2"]), true).unwrap();
    let call = Tree::FunctionCall {
        name: "twice".to_string(),
        args: vec![Tree::Literal(number("4"))],
        named_args: vec![],
    };
    assert_eq!(it.evaluate_expression(&call, &Nums, &p).unwrap(), number("8"));
    assert!(it.call_stack.is_empty());
}

#[test]
fn blocks_inside_bodies_are_refused() {
    let mut it = Interpreter::new();
    let p = printer();
    let program = lines(&[
        "function f(n) do",
        "  if n > 1 do",
        "    return 1",
        "  endif",
        "  return 2",
        "endfunction",
        "global r = f(3)",
    ]);
    let r = it.execute_multiline(&program, &Nums, &p);
    assert!(r.is_err());
    assert_eq!(it.get_variable("r"), None);
    assert!(it.call_stack.is_empty());
}
