use data_code::error::DataCodeError;
use data_code::interpreter::lines::{block_line_statement, simple_line_statement, LineStatement};
use data_code::interpreter::Interpreter;

fn strings(v: &[&str]) -> Vec<String> {
    v.iter().map(|s| s.to_string()).collect()
}

fn syntax(r: Result<LineStatement, DataCodeError>) -> (String, usize) {
    match r {
        Err(DataCodeError::SyntaxError { message, line, column }) => {
            assert_eq!(column, 0);
            (message, line)
        }
        other => panic!("expected a syntax error, got {:?}", other),
    }
}

fn is_skip(r: Result<LineStatement, DataCodeError>) -> bool {
    matches!(r, Ok(LineStatement::Skip))
}

#[test]
fn lines_skipped() {
    for code in [
        "", "   ", "# note", "next i", "function f(a) do", "global function g() do", "if x > 1 do",
        "for x in xs do", "try", "catch", "finally", "endtry", "else", "endif", "endeif", "endfunction",
    ] {
        assert!(is_skip(simple_line_statement(code, false, 1)), "{}", code);
    }
}

#[test]
fn lines_break_and_throw() {
    assert!(matches!(simple_line_statement("  break ", false, 1), Ok(LineStatement::Break)));
    match simple_line_statement("throw   'bad input' ", false, 1) {
        Ok(LineStatement::Throw(e)) => assert_eq!(e, "'bad input'"),
        other => panic!("{:?}", other),
    }
}

#[test]
fn lines_print_arguments() {
    match simple_line_statement("print(a, f(b, c), [1, 2], {k: 'x,y'}, \"p, q\")", false, 1) {
        Ok(LineStatement::Print(args)) => {
            assert_eq!(args, strings(&["a", "f(b, c)", "[1, 2]", "{k: 'x,y'}", "\"p, q\""]))
        }
        other => panic!("{:?}", other),
    }
    match simple_line_statement("print(  )", false, 1) {
        Ok(LineStatement::Print(args)) => assert!(args.is_empty()),
        other => panic!("{:?}", other),
    }
    match simple_line_statement("print(x)) ", false, 1) {
        Ok(LineStatement::Print(args)) => assert_eq!(args, strings(&["x)"])),
        other => panic!("{:?}", other),
    }
}

#[test]
fn lines_print_without_arguments_is_an_error() {
    assert_eq!(
        syntax(simple_line_statement("print(, ,)", false, 9)),
        ("print() requires at least one argument".to_string(), 9)
    );
    match block_line_statement("print(, ,)", false, false, false, 9) {
        Ok(LineStatement::Print(args)) => assert!(args.is_empty()),
        other => panic!("{:?}", other),
    }
}

#[test]
fn lines_print_without_closing_parenthesis_is_an_expression() {
    match simple_line_statement("print(x", false, 1) {
        Ok(LineStatement::Expression(e)) => assert_eq!(e, "print(x"),
        other => panic!("{:?}", other),
    }
}

#[test]
fn lines_return() {
    assert_eq!(
        syntax(simple_line_statement("return 1", false, 4)),
        ("return statement must be inside a function".to_string(), 4)
    );
    match simple_line_statement("return  a + 1 ", true, 4) {
        Ok(LineStatement::Return(e)) => assert_eq!(e, "a + 1"),
        other => panic!("{:?}", other),
    }
    match simple_line_statement("return", true, 4) {
        Ok(LineStatement::Return(e)) => assert_eq!(e, ""),
        other => panic!("{:?}", other),
    }
    assert!(is_skip(block_line_statement("return 1", true, false, true, 4)));
    assert_eq!(
        syntax(block_line_statement("return 1", false, false, false, 6)),
        ("return statement must be inside a function".to_string(), 6)
    );
}

#[test]
fn lines_declarations() {
    match simple_line_statement("global total = a == b", false, 1) {
        Ok(LineStatement::Declare(g, n, e)) => {
            assert!(g);
            assert_eq!((n.as_str(), e.as_str()), ("total", "a == b"));
        }
        other => panic!("{:?}", other),
    }
    match simple_line_statement("local  x=1", false, 1) {
        Ok(LineStatement::Declare(g, n, e)) => {
            assert!(!g);
            assert_eq!((n.as_str(), e.as_str()), ("x", "1"));
        }
        other => panic!("{:?}", other),
    }
    assert_eq!(syntax(simple_line_statement("global x", false, 2)), ("Invalid assignment".to_string(), 2));
}

#[test]
fn lines_assignments_and_expressions() {
    match simple_line_statement("count_2 = count_2 + 1", false, 1) {
        Ok(LineStatement::Assign(n, e)) => assert_eq!((n.as_str(), e.as_str()), ("count_2", "count_2 + 1")),
        other => panic!("{:?}", other),
    }
    for code in ["a == b", "a.b = 1", "x <= 3", "f(x)", "arr[0] = 1"] {
        match simple_line_statement(code, false, 1) {
            Ok(LineStatement::Expression(e)) => assert_eq!(e, code),
            other => panic!("{} gave {:?}", code, other),
        }
    }
}

#[test]
fn lines_break_inside_blocks() {
    assert_eq!(
        syntax(block_line_statement("break", false, false, false, 3)),
        ("break statement must be inside a loop".to_string(), 3)
    );
    assert!(matches!(block_line_statement("break", false, true, false, 3), Ok(LineStatement::Break)));
    match block_line_statement("function f() do", false, false, false, 3) {
        Ok(LineStatement::Expression(e)) => assert_eq!(e, "function f() do"),
        other => panic!("{:?}", other),
    }
}

#[test]
fn lines_interpreter_state() {
    let mut it = Interpreter::new();
    it.current_line = 12;
    assert_eq!(
        syntax(it.line_statement("return 5")),
        ("return statement must be inside a function".to_string(), 12)
    );
    it.variable_manager.enter_function_scope();
    assert!(matches!(it.line_statement("return 5"), Ok(LineStatement::Return(_))));
    assert!(matches!(it.block_line_statement("return 5"), Ok(LineStatement::Return(_))));
    assert_eq!(
        syntax(it.block_line_statement("break")),
        ("break statement must be inside a loop".to_string(), 12)
    );
    it.active_loop_count = 1;
    assert!(matches!(it.block_line_statement("break"), Ok(LineStatement::Break)));
}
