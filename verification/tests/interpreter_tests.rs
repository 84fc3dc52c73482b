use data_code::interpreter::execution::{
    is_incomplete_assignment, parse_for_variable, parse_next_variable, split_function_args,
};
use data_code::interpreter::user_functions::{TryBlock, UserFunction, UserFunctionManager};
use data_code::interpreter::variables::VariableManager;
use data_code::interpreter::expressions::ExpressionEvaluator;
use data_code::interpreter::blocks::split_try_statement;
use data_code::interpreter::{Interpreter, MAX_RECURSION_DEPTH};
use data_code::error::DataCodeError;
use data_code::value::Value;

fn number(x: f64) -> Value {
    Value::Number(x.to_string())
}

#[test]
fn test_user_function_creation() {
    let func = UserFunction::new(
        "test_func".to_string(),
        vec!["param1".to_string(), "param2".to_string()],
        vec!["return param1 + param2".to_string()],
        true,
    );
    assert_eq!(func.name, "test_func");
    assert_eq!(func.parameters.len(), 2);
    assert_eq!(func.body.len(), 1);
    assert!(func.is_global);
}

#[test]
fn test_user_function_manager() {
    let mut manager = UserFunctionManager::new();
    let func = UserFunction::new(
        "add".to_string(),
        vec!["a".to_string(), "b".to_string()],
        vec!["return a + b".to_string()],
        true,
    );
    manager.add_function(func);
    assert!(manager.contains_function("add"));
    assert!(manager.get_function("add").is_some());
    assert!(!manager.contains_function("subtract"));
    assert!(manager.get_function("subtract").is_none());
    let removed = manager.remove_function("add");
    assert!(removed.is_some());
    assert!(!manager.contains_function("add"));
}

#[test]
fn user_function_manager_replaces_same_name() {
    let mut manager = UserFunctionManager::default();
    manager.add_function(UserFunction::new("f".to_string(), vec![], vec!["a".to_string()], true));
    manager.add_function(UserFunction::new("g".to_string(), vec![], vec![], false));
    manager.add_function(UserFunction::new("f".to_string(), vec!["x".to_string()], vec![], false));
    assert_eq!(manager.get_all_functions().len(), 2);
    assert_eq!(manager.get_function("f").unwrap().parameters.len(), 1);
    assert!(manager.remove_function("missing").is_none());
    manager.clear();
    assert_eq!(manager.get_all_functions().len(), 0);
}

#[test]
fn test_try_block_creation() {
    let try_block = TryBlock::new(
        Some("error".to_string()),
        vec!["print(error)".to_string()],
        Some(vec!["cleanup()".to_string()]),
        1,
        0,
    );
    assert_eq!(try_block.catch_var, Some("error".to_string()));
    assert_eq!(try_block.catch_body.len(), 1);
    assert!(try_block.finally_body.is_some());
    assert_eq!(try_block.block_id, 1);
    assert_eq!(try_block.nesting_level, 0);
    assert!(try_block.is_active);
    assert!(try_block.can_handle_exception());
}

#[test]
fn try_block_deactivate_and_empty_catch() {
    let mut b = TryBlock::new(None, vec!["x".to_string()], None, 7, 2);
    b.deactivate();
    assert!(!b.is_active);
    assert!(!b.can_handle_exception());
    assert_eq!(b.block_id, 7);
    let c = TryBlock::new(None, vec![], None, 1, 0);
    assert!(!c.can_handle_exception());
}

#[test]
fn test_global_variables() {
    let mut vm = VariableManager::new();
    vm.set_variable("x".to_string(), number(42.0), true);
    assert_eq!(vm.get_variable("x"), Some(&number(42.0)));
    vm.set_variable("y".to_string(), Value::String("hello".to_string()), true);
    assert_eq!(vm.get_variable("y"), Some(&Value::String("hello".to_string())));
}

#[test]
fn test_function_scope() {
    let mut vm = VariableManager::new();
    vm.set_variable("global_var".to_string(), number(1.0), true);
    vm.enter_function_scope();
    vm.set_variable("local_var".to_string(), number(2.0), false);
    assert_eq!(vm.get_variable("local_var"), Some(&number(2.0)));
    assert_eq!(vm.get_variable("global_var"), Some(&number(1.0)));
    vm.exit_function_scope();
    assert_eq!(vm.get_variable("local_var"), None);
    assert_eq!(vm.get_variable("global_var"), Some(&number(1.0)));
}

#[test]
fn test_loop_scope() {
    let mut vm = VariableManager::new();
    vm.enter_loop_scope();
    vm.set_loop_variable("i".to_string(), number(0.0));
    assert_eq!(vm.get_variable("i"), Some(&number(0.0)));
    vm.exit_loop_scope();
    assert_eq!(vm.get_variable("i"), None);
}

#[test]
fn test_function_parameters() {
    let mut vm = VariableManager::new();
    vm.enter_function_scope();
    let params = vec!["a".to_string(), "b".to_string()];
    let args = vec![number(1.0), number(2.0)];
    vm.set_function_parameters(&params, args).unwrap();
    assert_eq!(vm.get_variable("a"), Some(&number(1.0)));
    assert_eq!(vm.get_variable("b"), Some(&number(2.0)));
    vm.exit_function_scope();
}

#[test]
fn variable_scopes_shadow_and_count() {
    let mut vm = VariableManager::default();
    vm.set_variable("x".to_string(), number(1.0), true);
    vm.enter_function_scope();
    vm.set_variable("x".to_string(), number(2.0), false);
    vm.enter_loop_scope();
    vm.set_loop_variable("x".to_string(), number(3.0));
    assert_eq!(vm.get_variable("x"), Some(&number(3.0)));
    assert_eq!(vm.loop_depth(), 1);
    assert_eq!(vm.function_depth(), 1);
    assert!(vm.is_in_loop() && vm.is_in_function());
    vm.exit_loop_scope();
    assert_eq!(vm.get_variable("x"), Some(&number(2.0)));
    vm.exit_function_scope();
    assert_eq!(vm.get_variable("x"), Some(&number(1.0)));
    assert_eq!(vm.get_all_global_variables().len(), 1);
    let err = vm.set_function_parameters(&["a".to_string()], vec![]);
    assert_eq!(err, Err("Неверное количество аргументов: ожидалось 1, получено 0".to_string()));
    vm.set_loop_variable("y".to_string(), Value::Null);
    assert_eq!(vm.get_variable("y"), None);
    vm.clear();
    assert_eq!(vm.get_variable("x"), None);
    assert!(!vm.is_in_function());
}

#[test]
fn next_and_for_variables() {
    assert_eq!(parse_next_variable("  next i  "), Some("i".to_string()));
    assert_eq!(parse_next_variable("next   "), None);
    assert_eq!(parse_next_variable("nextx"), None);
    assert_eq!(parse_for_variable("for i in range(10) do"), Some("i".to_string()));
    assert_eq!(parse_for_variable("  for a, b in pairs do "), Some("a".to_string()));
    assert_eq!(parse_for_variable("for x in y in z do"), None);
    assert_eq!(parse_for_variable("for x over y do"), None);
    assert_eq!(parse_for_variable("for  in y do"), None);
}

#[test]
fn split_arguments() {
    assert_eq!(
        split_function_args("1, 'a,b', f(2, 3) ,  , x"),
        vec!["1".to_string(), "'a,b'".to_string(), "f(2, 3)".to_string(), "x".to_string()]
    );
    assert_eq!(split_function_args(""), Vec::<String>::new());
    assert_eq!(split_function_args("\"q'\", 2"), vec!["\"q'\"".to_string(), "2".to_string()]);
}

#[test]
fn incomplete_assignments() {
    assert!(is_incomplete_assignment("global x = [1, 2,"));
    assert!(!is_incomplete_assignment("global x = [1, 2]"));
    assert!(!is_incomplete_assignment("x = [1, 2,"));
    assert!(is_incomplete_assignment("  local f = foo(\"a)\","));
    assert!(!is_incomplete_assignment("global s = '\\' (' "));
}

#[test]
fn test_interpreter_creation() {
    let interp = Interpreter::new();
    assert_eq!(interp.current_line, 1);
    assert!(interp.return_value.is_none());
    assert!(interp.exception_stack.is_empty());
}

#[test]
fn test_variable_operations() {
    let mut interp = Interpreter::new();
    interp.set_variable("test".to_string(), number(42.0), true);
    assert_eq!(interp.get_variable("test"), Some(&number(42.0)));
    assert_eq!(interp.get_variable("nonexistent"), None);
}

#[test]
fn test_user_function_management() {
    let mut interp = Interpreter::new();
    let func = UserFunction::new(
        "test_func".to_string(),
        vec!["x".to_string()],
        vec!["return x * 2".to_string()],
        true,
    );
    interp.add_user_function(func);
    assert!(interp.has_user_function("test_func"));
    assert!(!interp.has_user_function("nonexistent"));
}

fn try_block(catch: bool, id: usize) -> TryBlock {
    let body = if catch { vec!["print(e)".to_string()] } else { Vec::new() };
    TryBlock::new(Some("e".to_string()), body, None, id, 0)
}

#[test]
fn interpreter_exception_stack_handler_and_deactivation() {
    let mut interp = Interpreter::new();
    assert_eq!(interp.find_exception_handler(), None);
    interp.push_try_block(try_block(true, 1));
    interp.push_try_block(try_block(false, 2));
    interp.push_try_block(try_block(true, 3));
    assert_eq!(interp.get_try_nesting_level(), 3);
    assert_eq!(interp.get_next_try_block_id(), 4);
    assert_eq!(interp.find_exception_handler(), Some(2));
    interp.deactivate_try_blocks_until(1);
    assert!(interp.exception_stack[0].is_active);
    assert!(!interp.exception_stack[1].is_active);
    assert!(!interp.exception_stack[2].is_active);
    assert_eq!(interp.exception_stack[2].block_id, 3);
    assert_eq!(interp.find_exception_handler(), Some(0));
    let popped = interp.pop_try_block().unwrap();
    assert_eq!(popped.block_id, 3);
    assert_eq!(interp.get_try_nesting_level(), 2);
}

#[test]
fn interpreter_function_scopes_and_recursion_limit() {
    let mut interp = Interpreter::new();
    interp.set_variable("g".to_string(), number(1.0), true);
    assert!(interp.enter_function_scope().is_ok());
    assert!(interp.is_in_function());
    interp.set_variable("l".to_string(), number(2.0), false);
    assert_eq!(interp.get_variable("l"), Some(&number(2.0)));
    assert_eq!(interp.get_variable("g"), Some(&number(1.0)));
    interp.exit_function_scope();
    assert_eq!(interp.get_variable("l"), None);
    assert_eq!(interp.get_recursion_depth(), 0);
    interp.exit_function_scope();
    assert_eq!(interp.get_recursion_depth(), 0);
    for _ in 0..MAX_RECURSION_DEPTH {
        assert!(interp.enter_function_scope().is_ok());
    }
    match interp.enter_function_scope() {
        Err(DataCodeError::RuntimeError { message, line }) => {
            assert_eq!(message, "Превышена максимальная глубина рекурсии (1000)");
            assert_eq!(line, 1);
        }
        other => panic!("unexpected {:?}", other),
    }
    assert_eq!(interp.get_recursion_depth(), 1000);
}

#[test]
fn interpreter_loop_variables_and_clear() {
    let mut interp = Interpreter::new();
    interp.set_loop_variable("i".to_string(), number(0.0));
    assert_eq!(interp.get_variable("i"), None);
    interp.enter_loop_scope();
    interp.set_loop_variable("i".to_string(), number(3.0));
    assert_eq!(interp.get_variable("i"), Some(&number(3.0)));
    interp.exit_loop_scope();
    assert_eq!(interp.get_variable("i"), None);
    assert!(interp
        .define_function("f".to_string(), vec!["a".to_string()], vec!["return a".to_string()], false)
        .is_ok());
    assert!(interp.has_user_function("f"));
    interp.current_line = 9;
    interp.continue_requested = true;
    interp.push_try_block(try_block(true, 1));
    interp.clear();
    assert!(!interp.has_user_function("f"));
    assert_eq!(interp.current_line, 1);
    assert!(interp.continue_requested);
    assert_eq!(interp.get_try_nesting_level(), 0);
    assert_eq!(interp.get_all_variables().len(), 0);
}

#[test]
fn expression_evaluator_sees_interpreter_state() {
    let mut vm = VariableManager::new();
    vm.set_variable("x".to_string(), Value::Bool(true), true);
    let mut fm = UserFunctionManager::new();
    fm.add_function(UserFunction::new("f".to_string(), vec![], vec![], true));
    let ev = ExpressionEvaluator::new(&vm, &fm, 7);
    assert_eq!(ev.current_line, 7);
    assert_eq!(ev.variable_manager.get_variable("x"), Some(&Value::Bool(true)));
    assert!(ev.function_manager.contains_function("f"));
    assert!(!ev.function_manager.contains_function("g"));
}

#[test]
fn interpreter_begin_try_pushes_block_and_scope() {
    let mut it = Interpreter::new();
    let ls: Vec<String> = ["try", "  a()", "catch e", "  b()", "endtry"].iter().map(|s| s.to_string()).collect();
    let body = it.begin_try(split_try_statement(&ls));
    assert_eq!(body, vec!["  a()".to_string()]);
    assert_eq!(it.get_try_nesting_level(), 1);
    let block = &it.exception_stack[0];
    assert_eq!(block.catch_var, Some("e".to_string()));
    assert_eq!(block.catch_body, vec!["  b()".to_string()]);
    assert_eq!(block.finally_body, None);
    assert_eq!(block.block_id, 1);
    assert_eq!(block.nesting_level, 0);
    assert!(block.is_active);
    assert!(it.variable_manager.is_in_loop());
    let body = it.begin_try(split_try_statement(&ls));
    assert_eq!(body.len(), 1);
    assert_eq!(it.exception_stack[1].block_id, 2);
    assert_eq!(it.exception_stack[1].nesting_level, 1);
}

#[test]
fn variables_argument_count_message_multi_digit() {
    let mut vm = VariableManager::new();
    vm.enter_function_scope();
    let params: Vec<String> = (0..12).map(|i| format!("p{}", i)).collect();
    let err = vm.set_function_parameters(&params, vec![Value::Null, Value::Null, Value::Null]);
    assert_eq!(err, Err("Неверное количество аргументов: ожидалось 12, получено 3".to_string()));
}
