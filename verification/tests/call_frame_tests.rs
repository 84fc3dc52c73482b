use data_code::interpreter::call_frame::{CallFrame, CallStack, NumberText};
use data_code::interpreter::control_flow::ControlFlowHandler;
use data_code::interpreter::execution::{format_value_for_print, to_bool};
use data_code::optimizer::ast::NumberArithmetic;
use data_code::parser::tokens::BinaryOp;
use data_code::value::Value;

struct F64;

fn num(a: &str) -> f64 {
    a.parse().unwrap_or(0.0)
}

impl NumberText for F64 {
    fn display_text(&self, a: &str) -> String {
        let n = num(a);
        if n.fract() == 0.0 {
            format!("{}", n as i64)
        } else {
            format!("{}", n)
        }
    }
}

impl NumberArithmetic for F64 {
    fn arithmetic(&self, _a: &str, _op: BinaryOp, _b: &str) -> String {
        String::new()
    }
    fn is_zero(&self, a: &str) -> bool {
        num(a) == 0.0
    }
    fn compare(&self, _a: &str, _op: BinaryOp, _b: &str) -> bool {
        false
    }
    fn negate(&self, a: &str) -> String {
        format!("{}", -num(a))
    }
    fn second_is_smaller(&self, a: &str, b: &str) -> bool {
        num(b) < num(a)
    }
}

fn n(s: &str) -> Value {
    Value::Number(s.to_string())
}

#[test]
fn test_call_frame_creation() {
    let frame = CallFrame::new("test_func".to_string(), vec![n("42")], None, 0);
    assert_eq!(frame.function_id, "test_func");
    assert_eq!(frame.ip, 0);
    assert_eq!(frame.args.len(), 1);
}

#[test]
fn test_call_stack_operations() {
    let mut stack = CallStack::new(1000);
    let frame1 = CallFrame::new("func1".to_string(), vec![], None::<String>, 0);
    let frame2 = CallFrame::new("func2".to_string(), vec![], None::<String>, 1);
    stack.push(frame1).unwrap();
    stack.push(frame2).unwrap();
    assert_eq!(stack.len(), 2);
    assert!(!stack.is_empty());
    let popped = stack.pop();
    assert!(popped.is_some());
    assert_eq!(stack.len(), 1);
}

#[test]
fn test_call_stack_max_depth() {
    let mut stack = CallStack::new(2);
    let frame1 = CallFrame::new("func1".to_string(), vec![], None::<String>, 0);
    let frame2 = CallFrame::new("func2".to_string(), vec![], None::<String>, 1);
    let frame3 = CallFrame::new("func3".to_string(), vec![], None::<String>, 2);
    stack.push(frame1).unwrap();
    stack.push(frame2).unwrap();
    assert!(stack.push(frame3).is_err());
}

#[test]
fn test_stack_trace() {
    let mut stack = CallStack::new(1000);
    let frame1 = CallFrame::new("func1".to_string(), vec![n("1")], None, 0);
    let frame2 = CallFrame::new("func2".to_string(), vec![Value::String("test".to_string())], None, 1);
    stack.push(frame1).unwrap();
    stack.push(frame2).unwrap();
    let trace = stack.get_stack_trace(&F64);
    assert_eq!(trace.len(), 2);
    assert!(trace[0].contains("func2"));
    assert!(trace[1].contains("func1"));
    assert_eq!(trace[0], "func2(\"test\")");
    assert_eq!(trace[1], "func1(1)");
}

#[test]
fn stack_trace_lists_arguments() {
    let mut stack = CallStack::new(5);
    stack.push(CallFrame::new("f".to_string(), vec![n("2.5"), Value::Bool(true), Value::Null], None, 0)).unwrap();
    assert_eq!(stack.get_stack_trace(&F64), vec!["f(2.5, true, null)".to_string()]);
}

#[test]
fn depth_error_names_the_function() {
    let mut stack = CallStack::new(0);
    let err = stack.push(CallFrame::new("deep".to_string(), vec![], None, 0)).unwrap_err();
    let text = format!("{:?}", err);
    assert!(text.contains("(0) в функции 'deep'"));
    assert!(stack.is_empty());
}

#[test]
fn replace_top_keeps_depth() {
    let mut stack = CallStack::new(5);
    assert!(stack.replace_top(CallFrame::new("x".to_string(), vec![], None, 9)).is_err());
    stack.push(CallFrame::new("a".to_string(), vec![], None, 3)).unwrap();
    stack.replace_top(CallFrame::new("b".to_string(), vec![], None, 9)).unwrap();
    assert_eq!(stack.len(), 1);
    let top = stack.last().unwrap();
    assert_eq!(top.function_id, "b");
    assert_eq!(top.depth, 3);
}

#[test]
fn frames_step_through_their_body() {
    let body = vec!["a = 1".to_string(), "print(a)".to_string()];
    let mut stack = CallStack::new(5);
    stack.push(CallFrame::new("f".to_string(), vec![], Some("tmp".to_string()), 0)).unwrap();
    {
        let frame = stack.last_mut().unwrap();
        assert_eq!(frame.current_instruction(&body), Some(&body[0]));
        frame.advance();
        frame.set_local("a".to_string(), n("1"));
        assert!(!frame.is_done(body.len()));
        frame.advance();
    }
    let frame = stack.last().unwrap();
    assert!(frame.is_done(body.len()));
    assert_eq!(frame.current_instruction(&body), None);
    assert_eq!(frame.get_local("a"), Some(&n("1")));
    assert_eq!(frame.get_local("b"), None);
}

#[test]
fn control_flow_test_to_bool() {
    assert_eq!(ControlFlowHandler::to_bool(&Value::Bool(true), &F64), true);
    assert_eq!(ControlFlowHandler::to_bool(&Value::Bool(false), &F64), false);
    assert_eq!(ControlFlowHandler::to_bool(&n("1"), &F64), true);
    assert_eq!(ControlFlowHandler::to_bool(&n("0"), &F64), false);
    assert_eq!(ControlFlowHandler::to_bool(&Value::Null, &F64), false);
}

#[test]
fn execution_test_to_bool() {
    assert_eq!(to_bool(&Value::Bool(true), &F64), true);
    assert_eq!(to_bool(&Value::Bool(false), &F64), false);
    assert_eq!(to_bool(&n("1"), &F64), true);
    assert_eq!(to_bool(&n("0"), &F64), false);
    assert_eq!(to_bool(&Value::String("hello".to_string()), &F64), true);
    assert_eq!(to_bool(&Value::String("".to_string()), &F64), false);
    assert_eq!(to_bool(&Value::Null, &F64), false);
}

#[test]
fn test_format_value_for_print() {
    assert_eq!(format_value_for_print(&n("42"), &F64), "42");
    assert_eq!(format_value_for_print(&n("42.5"), &F64), "42.5");
    assert_eq!(format_value_for_print(&Value::String("hello".to_string()), &F64), "hello");
    assert_eq!(format_value_for_print(&Value::Bool(true), &F64), "true");
    assert_eq!(format_value_for_print(&Value::Null, &F64), "null");
}

#[test]
fn lists_in_prints_and_traces() {
    let small = Value::Array(vec![n("1"), Value::String("a".to_string()), Value::Array(vec![])]);
    assert_eq!(format_value_for_print(&small, &F64), "[1, a, []]");
    let mut stack = CallStack::new(10);
    let big = Value::Array(vec![n("1"), n("2"), n("3"), n("4")]);
    let small2 = Value::Array(vec![n("1"), Value::String("a".to_string())]);
    stack.push(CallFrame::new("g".to_string(), vec![small2, big], None, 0)).unwrap();
    assert_eq!(stack.get_stack_trace(&F64), vec!["g([1, \"a\"], [4 items])".to_string()]);
}
