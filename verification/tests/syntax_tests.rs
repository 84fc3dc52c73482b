use data_code::parser::expressions::ExpressionParser;
use data_code::parser::statements::StatementParser;
use data_code::parser::tokens::{BinaryOp, DeclarationScope, Expr, Token};
use data_code::parser::Parser;
use data_code::value::Value;

fn number(e: &Expr) -> Option<f64> {
    match e {
        Expr::Literal(Value::Number(s)) => Some(s.parse().unwrap_or(0.0)),
        _ => None,
    }
}

fn expression(text: &str) -> Result<Expr, data_code::error::DataCodeError> {
    let mut parser = Parser::new(text);
    let mut expr_parser = ExpressionParser::new(&mut parser);
    expr_parser.parse_expression()
}

fn statement(text: &str) -> Result<Expr, data_code::error::DataCodeError> {
    let mut parser = Parser::new(text);
    let mut stmt_parser = StatementParser::new(&mut parser);
    stmt_parser.parse_statement()
}

#[test]
fn test_parser_creation() {
    let parser = Parser::new("42");
    assert!(matches!(parser.current_token(), Token::Number(_)));
}

#[test]
fn test_parser_advance() {
    let mut parser = Parser::new("42 + 10");
    assert!(matches!(parser.current_token(), Token::Number(_)));
    parser.advance();
    assert!(matches!(parser.current_token(), Token::Plus));
    parser.advance();
    assert!(matches!(parser.current_token(), Token::Number(_)));
}

#[test]
fn test_simple_expression_parsing() {
    let mut parser = Parser::new("42");
    let expr = parser.parse_expression().unwrap();
    match number(&expr) {
        Some(n) => assert_eq!(n, 42.0),
        None => panic!("Expected number literal"),
    }
}

#[test]
fn test_binary_expression_parsing() {
    let mut parser = Parser::new("2 + 3");
    let expr = parser.parse_expression().unwrap();
    match expr {
        Expr::Binary { operator, .. } => {
            assert!(matches!(operator, BinaryOp::Add));
        }
        _ => panic!("Expected binary expression"),
    }
}

#[test]
fn test_parse_number() {
    let mut parser = Parser::new("42");
    let mut expr_parser = ExpressionParser::new(&mut parser);
    let expr = expr_parser.parse_expression().unwrap();
    match number(&expr) {
        Some(n) => assert_eq!(n, 42.0),
        None => panic!("Expected number literal"),
    }
}

#[test]
fn test_parse_binary_expression() {
    let mut parser = Parser::new("2 + 3");
    let mut expr_parser = ExpressionParser::new(&mut parser);
    let expr = expr_parser.parse_expression().unwrap();
    match expr {
        Expr::Binary { operator, .. } => {
            assert!(matches!(operator, BinaryOp::Add));
        }
        _ => panic!("Expected binary expression"),
    }
}

#[test]
fn test_parse_precedence() {
    let mut parser = Parser::new("2 + 3 * 4");
    let mut expr_parser = ExpressionParser::new(&mut parser);
    let expr = expr_parser.parse_expression().unwrap();
    match expr {
        Expr::Binary { left, operator: BinaryOp::Add, right } => {
            assert_eq!(number(left.as_ref()), Some(2.0));
            assert!(matches!(right.as_ref(), Expr::Binary { operator: BinaryOp::Multiply, .. }));
        }
        _ => panic!("Expected addition with multiplication on right"),
    }
}

#[test]
fn test_parse_function_call() {
    let mut parser = Parser::new("func(1, 2)");
    let mut expr_parser = ExpressionParser::new(&mut parser);
    let expr = expr_parser.parse_expression().unwrap();
    match expr {
        Expr::FunctionCall { name, args, named_args } => {
            assert_eq!(name, "func");
            assert_eq!(args.len(), 2);
            assert_eq!(named_args.len(), 0);
        }
        _ => panic!("Expected function call"),
    }
}

#[test]
fn test_parse_array_literal() {
    let mut parser = Parser::new("[1, 2, 3]");
    let mut expr_parser = ExpressionParser::new(&mut parser);
    let expr = expr_parser.parse_expression().unwrap();
    match expr {
        Expr::ArrayLiteral { elements } => {
            assert_eq!(elements.len(), 3);
        }
        _ => panic!("Expected array literal"),
    }
}

#[test]
fn test_statement_parser_creation() {
    let mut parser = Parser::new("42");
    let _stmt_parser = StatementParser::new(&mut parser);
}

#[test]
fn test_parse_assignment() {
    let mut parser = Parser::new("x = 42");
    let mut stmt_parser = StatementParser::new(&mut parser);
    let stmt = stmt_parser.parse_statement().unwrap();
    match stmt {
        Expr::Assignment { target, value } => {
            assert!(matches!(target.as_ref(), Expr::Variable(_)));
            assert!(matches!(value.as_ref(), Expr::Literal(_)));
        }
        _ => panic!("Expected assignment"),
    }
}

#[test]
fn test_parse_declaration() {
    let mut parser = Parser::new("global x, y");
    let mut stmt_parser = StatementParser::new(&mut parser);
    let stmt = stmt_parser.parse_statement().unwrap();
    match stmt {
        Expr::Declaration { scope: DeclarationScope::Global, names } => {
            assert_eq!(names.len(), 2);
            assert_eq!(names[0], "x");
            assert_eq!(names[1], "y");
        }
        _ => panic!("Expected global declaration"),
    }
}

#[test]
fn test_parse_print() {
    let mut parser = Parser::new("print(42)");
    let mut stmt_parser = StatementParser::new(&mut parser);
    let stmt = stmt_parser.parse_statement().unwrap();
    match stmt {
        Expr::PrintStmt { args } => {
            assert_eq!(args.len(), 1);
        }
        _ => panic!("Expected print statement"),
    }
}

#[test]
fn expressions_modulo_binds_like_multiplication() {
    match expression("7 % 3 + 1").unwrap() {
        Expr::Binary { left, operator: BinaryOp::Add, right } => {
            assert!(matches!(left.as_ref(), Expr::Binary { operator: BinaryOp::Modulo, .. }));
            assert_eq!(number(right.as_ref()), Some(1.0));
        }
        other => panic!("unexpected {:?}", other),
    }
}

#[test]
fn expressions_line_feeds_after_operators() {
    match expression("1 +\n 2").unwrap() {
        Expr::Binary { operator: BinaryOp::Add, .. } => {}
        other => panic!("unexpected {:?}", other),
    }
    // No line feed is skipped after `==`: the right operand is missing.
    assert!(expression("1 ==\n 2").is_err());
}

#[test]
fn expressions_named_and_spread_arguments() {
    match expression("f(1, *xs, key = 2, other = 'a')").unwrap() {
        Expr::FunctionCall { name, args, named_args } => {
            assert_eq!(name, "f");
            assert_eq!(args.len(), 2);
            assert!(matches!(args[1], Expr::Spread { .. }));
            assert_eq!(named_args.len(), 2);
            assert_eq!(named_args[0].0, "key");
            assert_eq!(named_args[1].0, "other");
        }
        other => panic!("unexpected {:?}", other),
    }
}

#[test]
fn expressions_positional_after_named_is_an_error() {
    assert!(expression("f(key = 1, 2)").is_err());
}

#[test]
fn expressions_argument_stops_at_comma_after_operator() {
    match expression("f(1 +, b)").unwrap() {
        Expr::FunctionCall { args, .. } => {
            assert_eq!(args.len(), 2);
            assert_eq!(number(&args[0]), Some(1.0));
        }
        other => panic!("unexpected {:?}", other),
    }
    // After a leading name, the operand after `+` is required.
    assert!(expression("f(a +, b)").is_err());
}

#[test]
fn expressions_argument_after_name_takes_only_arithmetic() {
    match expression("f(x * 2 + 1)").unwrap() {
        Expr::FunctionCall { args, .. } => {
            assert!(matches!(args[0], Expr::Binary { operator: BinaryOp::Add, .. }));
        }
        other => panic!("unexpected {:?}", other),
    }
    // A comparison after a leading name is not part of the argument.
    assert!(expression("f(x == 1)").is_err());
    assert!(expression("f(1 == x)").is_ok());
}

#[test]
fn expressions_member_index_and_call() {
    match expression("a.b[0](1)").unwrap() {
        Expr::Index { object, .. } => {
            assert!(matches!(object.as_ref(), Expr::Member { member, .. } if member == "b"));
        }
        other => panic!("unexpected {:?}", other),
    }
    assert!(expression("a.").is_err());
}

#[test]
fn expressions_object_literals() {
    match expression("{a: 1, 'b': 2,}").unwrap() {
        Expr::ObjectLiteral { pairs } => {
            assert_eq!(pairs.len(), 2);
            assert_eq!(pairs[0].0, "a");
            assert_eq!(pairs[1].0, "b");
        }
        other => panic!("unexpected {:?}", other),
    }
    assert!(matches!(expression("{}").unwrap(), Expr::ObjectLiteral { ref pairs } if pairs.is_empty()));
    assert!(expression("{1: 2}").is_err());
}

#[test]
fn expressions_parentheses_allow_line_feeds() {
    assert_eq!(number(&expression("(\n 5 \n)").unwrap()), Some(5.0));
    assert!(expression("(5").is_err());
    assert!(expression(")").is_err());
}

#[test]
fn statements_expression_statement_and_return() {
    assert!(matches!(statement("f(1)").unwrap(), Expr::ExprStmt { .. }));
    assert!(matches!(statement("return").unwrap(), Expr::ReturnStmt { value: None }));
    assert!(matches!(statement("return 1 + 2").unwrap(), Expr::ReturnStmt { value: Some(_) }));
    assert!(matches!(statement("\n\nlocal a").unwrap(), Expr::Declaration { scope: DeclarationScope::Local, .. }));
    assert!(statement("global").is_err());
    assert!(statement("global a,").is_err());
}

#[test]
fn statements_print_with_trailing_comma() {
    match statement("print(1, 'two',)").unwrap() {
        Expr::PrintStmt { args } => assert_eq!(args.len(), 2),
        other => panic!("unexpected {:?}", other),
    }
    assert!(matches!(statement("print()").unwrap(), Expr::PrintStmt { ref args } if args.is_empty()));
    assert!(statement("print 1").is_err());
}

#[test]
fn statements_function_definition() {
    match statement("function add(a, b)\n return a + b\nendfunction").unwrap() {
        Expr::FunctionDef { name, params, body } => {
            assert_eq!(name, "add");
            assert_eq!(params, vec!["a".to_string(), "b".to_string()]);
            match *body {
                Expr::Block { statements } => {
                    assert_eq!(statements.len(), 1);
                    assert!(matches!(statements[0], Expr::ReturnStmt { value: Some(_) }));
                }
                other => panic!("unexpected {:?}", other),
            }
        }
        other => panic!("unexpected {:?}", other),
    }
    assert!(statement("function f()\n x = 1\n").is_err());
    assert!(statement("function (a)\nendfunction").is_err());
}

#[test]
fn statements_try_catch() {
    match statement("try\n x = 1\ncatch e\n print(e)\nendtry").unwrap() {
        Expr::TryStmt { try_block, catch_var, catch_block } => {
            assert_eq!(catch_var, "e");
            assert!(matches!(*try_block, Expr::Block { ref statements } if statements.len() == 1));
            assert!(matches!(*catch_block, Expr::Block { ref statements } if statements.len() == 1));
        }
        other => panic!("unexpected {:?}", other),
    }
    assert!(statement("try\ncatch\nendtry").is_err());
}

#[test]
fn statements_closing_keyword_outside_block() {
    assert!(statement("endtry").is_err());
    assert!(statement("endfunction").is_err());
}

#[test]
fn parser_program_of_statements() {
    let mut parser = Parser::new("global x\nx = 1\n\nprint(x)\n");
    let program = parser.parse_program().unwrap();
    assert_eq!(program.len(), 3);
    assert!(matches!(program[1], Expr::Assignment { .. }));
    assert!(matches!(program[2], Expr::PrintStmt { .. }));
    let mut parser = Parser::new("x = \n");
    assert!(parser.parse_program().is_err());
}

#[test]
fn parser_expect_and_skip_newlines() {
    let mut parser = Parser::new("\n\n( 1");
    parser.skip_newlines();
    assert!(parser.expect(Token::LeftParen).is_ok());
    assert!(parser.expect(Token::RightParen).is_err());
    assert!(matches!(parser.current_token(), Token::Number(_)));
}
