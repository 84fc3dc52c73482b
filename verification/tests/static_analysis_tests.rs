use data_code::interpreter::variables::Scope;
use data_code::optimizer::static_analysis::StaticAnalyzer;
use data_code::parser::ast::Expr;
use data_code::parser::expression::Parser;
use data_code::value::{DataType, Value};

fn parse(s: &str) -> Expr {
    Parser::new(s).parse_expression().unwrap()
}

fn number(s: &str) -> Value {
    Value::Number(s.to_string())
}

#[test]
fn data_types_of_values() {
    assert_eq!(DataType::from_value(&number("5")), DataType::Integer);
    assert_eq!(DataType::from_value(&number("5.0")), DataType::Integer);
    assert_eq!(DataType::from_value(&number("-3")), DataType::Integer);
    assert_eq!(DataType::from_value(&number("5.5")), DataType::Float);
    assert_eq!(DataType::from_value(&number("0.25")), DataType::Float);
    assert_eq!(DataType::from_value(&number("NaN")), DataType::Float);
    assert_eq!(DataType::from_value(&Value::String("a".to_string())), DataType::String);
    assert_eq!(DataType::from_value(&Value::Bool(true)), DataType::Bool);
    assert_eq!(DataType::from_value(&Value::Null), DataType::Null);
}

#[test]
fn unknown_variables_are_reported() {
    let mut a = StaticAnalyzer::new();
    let r = a.analyze(&parse("x + 1")).unwrap();
    assert!(r.variables_used.contains("x"));
    assert_eq!(r.variables_used.len(), 1);
    assert_eq!(
        r.potential_errors,
        vec!["Variable 'x' may not be defined".to_string(), "Type mismatch in addition: Mixed + Integer".to_string()]
    );
    assert!(r.has_errors());
    assert!(!r.has_warnings());
    assert_eq!(a.get_error_count(), 0);
}

#[test]
fn known_variables_give_their_types() {
    let mut a = StaticAnalyzer::new();
    let mut known = Scope::new();
    known.insert("x".to_string(), number("2.5"));
    let r = a.analyze_with_context(&parse("x + 1"), &known).unwrap();
    assert!(r.potential_errors.is_empty());
    assert!(!r.has_errors());
}

#[test]
fn operation_errors() {
    let mut a = StaticAnalyzer::new();
    let r = a.analyze(&parse("'a' * 2")).unwrap();
    assert_eq!(r.potential_errors, vec!["Arithmetic operation requires numbers: String Multiply Integer".to_string()]);
    let r = a.analyze(&parse("'a' < 1")).unwrap();
    assert_eq!(r.potential_errors, vec!["Comparison requires compatible types: String Less Integer".to_string()]);
    let r = a.analyze(&parse("-'a'")).unwrap();
    assert_eq!(r.potential_errors, vec!["Unary minus requires number, got String".to_string()]);
    let r = a.analyze(&parse("'a' + 'b'")).unwrap();
    assert!(r.potential_errors.is_empty());
    let r = a.analyze(&parse("1 == 'b'")).unwrap();
    assert!(r.potential_errors.is_empty());
}

#[test]
fn call_errors_and_warnings() {
    let mut a = StaticAnalyzer::new();
    let r = a.analyze(&parse("len(1, 2)")).unwrap();
    assert_eq!(r.potential_errors, vec!["len() requires exactly 1 argument".to_string()]);
    assert!(r.functions_called.contains("len"));
    let r = a.analyze(&parse("table()")).unwrap();
    assert_eq!(r.potential_errors, vec!["table() requires at least 1 argument".to_string()]);
    let r = a.analyze(&parse("table_head()")).unwrap();
    assert_eq!(r.potential_errors, vec!["table_head() requires at least 1 argument".to_string()]);
    let r = a.analyze(&parse("foo(1)")).unwrap();
    assert!(r.potential_errors.is_empty());
    assert_eq!(r.warnings, vec!["Unknown function: foo".to_string()]);
    assert_eq!(r.get_all_issues(), vec!["Unknown function: foo".to_string()]);
    assert_eq!(a.get_warnings().len(), 1);
}

#[test]
fn warnings_accumulate_until_cleared() {
    let mut a = StaticAnalyzer::new();
    let _ = a.analyze(&parse("foo(1)")).unwrap();
    let r = a.analyze(&parse("[1, 'a']")).unwrap();
    assert_eq!(r.warnings, vec!["Unknown function: foo".to_string(), "Array contains mixed types".to_string()]);
    let r = a.analyze(&parse("[1, 2]")).unwrap();
    assert_eq!(r.warnings.len(), 2);
    a.clear();
    assert!(a.get_warnings().is_empty());
    let r = a.analyze(&parse("[]")).unwrap();
    assert!(r.warnings.is_empty());
}

#[test]
fn index_types_and_issues() {
    let mut a = StaticAnalyzer::new();
    let r = a.analyze(&parse("x[true]")).unwrap();
    assert_eq!(
        r.get_all_issues(),
        vec!["Variable 'x' may not be defined".to_string(), "Invalid index type: Bool".to_string()]
    );
}

#[test]
fn object_members_record_their_types() {
    let mut a = StaticAnalyzer::new();
    let e = Expr::ObjectLiteral {
        pairs: vec![
            ("a".to_string(), Expr::Literal(number("1"))),
            ("b".to_string(), Expr::Literal(Value::String("x".to_string()))),
            ("a".to_string(), Expr::Literal(number("1.5"))),
        ],
    };
    let r = a.analyze(&e).unwrap();
    assert_eq!(r.type_info.get("object.a"), Some(&DataType::Float));
    assert_eq!(r.type_info.get("object.b"), Some(&DataType::String));
    assert_eq!(r.type_info.len(), 2);
}

#[test]
fn functions_and_variables_are_sets() {
    let mut a = StaticAnalyzer::new();
    let r = a.analyze(&parse("f(x, x, g(x, y))")).unwrap();
    assert_eq!(r.variables_used.len(), 2);
    assert!(r.variables_used.contains("y"));
    assert_eq!(r.functions_called.len(), 2);
    assert!(r.functions_called.contains("g"));
}
