use data_code::parser::ast::Expr;
use data_code::parser::expression;
use data_code::parser::expression::Parser;
use data_code::parser::lexer::Lexer;
use data_code::parser::tokens::{BinaryOp, Token};
use data_code::value::Value;

fn number_value(t: &Token) -> Option<f64> {
    match t {
        Token::Number(s) => Some(s.parse().unwrap_or(0.0)),
        _ => None,
    }
}

#[test]
fn test_lexer_numbers() {
    let mut lexer = Lexer::new("42 3.14");
    assert_eq!(number_value(&lexer.next_token()), Some(42.0));
    assert_eq!(number_value(&lexer.next_token()), Some(3.14));
    assert_eq!(lexer.next_token(), Token::EOF);
}

#[test]
fn test_lexer_strings() {
    let mut lexer = Lexer::new("'hello' 'world' \"test\" \"double\"");
    assert_eq!(lexer.next_token(), Token::String("hello".to_string()));
    assert_eq!(lexer.next_token(), Token::String("world".to_string()));
    assert_eq!(lexer.next_token(), Token::String("test".to_string()));
    assert_eq!(lexer.next_token(), Token::String("double".to_string()));
    assert_eq!(lexer.next_token(), Token::EOF);
}

#[test]
fn test_lexer_operators() {
    let mut lexer = Lexer::new("+ - * / == != < > <= >=");
    assert_eq!(lexer.next_token(), Token::Plus);
    assert_eq!(lexer.next_token(), Token::Minus);
    assert_eq!(lexer.next_token(), Token::Multiply);
    assert_eq!(lexer.next_token(), Token::Divide);
    assert_eq!(lexer.next_token(), Token::Equal);
    assert_eq!(lexer.next_token(), Token::NotEqual);
    assert_eq!(lexer.next_token(), Token::Less);
    assert_eq!(lexer.next_token(), Token::Greater);
    assert_eq!(lexer.next_token(), Token::LessEqual);
    assert_eq!(lexer.next_token(), Token::GreaterEqual);
    assert_eq!(lexer.next_token(), Token::EOF);
}

#[test]
fn test_lexer_keywords() {
    let mut lexer = Lexer::new("true false null and or not");
    assert_eq!(lexer.next_token(), Token::Bool(true));
    assert_eq!(lexer.next_token(), Token::Bool(false));
    assert_eq!(lexer.next_token(), Token::Null);
    assert_eq!(lexer.next_token(), Token::And);
    assert_eq!(lexer.next_token(), Token::Or);
    assert_eq!(lexer.next_token(), Token::Not);
    assert_eq!(lexer.next_token(), Token::EOF);
}

#[test]
fn test_lexer_identifiers() {
    let mut lexer = Lexer::new("variable_name another_var");
    assert_eq!(lexer.next_token(), Token::Identifier("variable_name".to_string()));
    assert_eq!(lexer.next_token(), Token::Identifier("another_var".to_string()));
    assert_eq!(lexer.next_token(), Token::EOF);
}

#[test]
fn test_lexer_complex_expression() {
    let mut lexer = Lexer::new("x + 42 == 'hello'");
    assert_eq!(lexer.next_token(), Token::Identifier("x".to_string()));
    assert_eq!(lexer.next_token(), Token::Plus);
    assert_eq!(number_value(&lexer.next_token()), Some(42.0));
    assert_eq!(lexer.next_token(), Token::Equal);
    assert_eq!(lexer.next_token(), Token::String("hello".to_string()));
    assert_eq!(lexer.next_token(), Token::EOF);
}

#[test]
fn test_lexer_single_line_comments() {
    let mut lexer = Lexer::new("# Это комментарий\nglobal x = 42");
    assert_eq!(lexer.next_token(), Token::Newline);
    assert_eq!(lexer.next_token(), Token::Global);
    assert_eq!(lexer.next_token(), Token::Identifier("x".to_string()));
    assert_eq!(lexer.next_token(), Token::Assign);
    assert_eq!(number_value(&lexer.next_token()), Some(42.0));
    assert_eq!(lexer.next_token(), Token::EOF);
}

#[test]
fn test_lexer_multiline_comments() {
    let mut lexer = Lexer::new("\"\"\"Это многострочный комментарий\"\"\"\nglobal x = 42");
    assert_eq!(lexer.next_token(), Token::Newline);
    assert_eq!(lexer.next_token(), Token::Global);
    assert_eq!(lexer.next_token(), Token::Identifier("x".to_string()));
    assert_eq!(lexer.next_token(), Token::Assign);
    assert_eq!(number_value(&lexer.next_token()), Some(42.0));
    assert_eq!(lexer.next_token(), Token::EOF);
}

#[test]
fn lexer_number_text_is_kept() {
    let mut lexer = Lexer::new("1.2.3 x");
    assert_eq!(lexer.next_token(), Token::Number("1.2.3".to_string()));
    assert_eq!(lexer.next_token(), Token::Identifier("x".to_string()));
}

#[test]
fn lexer_unterminated_string_runs_to_end() {
    let mut lexer = Lexer::new("'abc");
    assert_eq!(lexer.next_token(), Token::String("abc".to_string()));
    assert_eq!(lexer.next_token(), Token::EOF);
    assert_eq!(lexer.next_token(), Token::EOF);
}

#[test]
fn lexer_skips_unknown_characters_and_reads_braces() {
    let mut lexer = Lexer::new("@ { } : % endtry function do");
    assert_eq!(lexer.next_token(), Token::LeftBrace);
    assert_eq!(lexer.next_token(), Token::RightBrace);
    assert_eq!(lexer.next_token(), Token::Colon);
    assert_eq!(lexer.next_token(), Token::Modulo);
    assert_eq!(lexer.next_token(), Token::EndTry);
    assert_eq!(lexer.next_token(), Token::Function);
    assert_eq!(lexer.next_token(), Token::Do);
    assert_eq!(lexer.next_token(), Token::EOF);
}

#[test]
fn test_token_is_literal() {
    assert!(Token::Number("42".to_string()).is_literal());
    assert!(Token::String("hello".to_string()).is_literal());
    assert!(Token::Bool(true).is_literal());
    assert!(Token::Null.is_literal());
    assert!(!Token::Plus.is_literal());
}

#[test]
fn test_token_is_operator() {
    assert!(Token::Plus.is_operator());
    assert!(Token::Equal.is_operator());
    assert!(Token::And.is_operator());
    assert!(!Token::Number("42".to_string()).is_operator());
}

#[test]
fn token_keyword_classes() {
    assert!(Token::Print.is_keyword());
    assert!(!Token::Print.is_statement_keyword());
    assert!(Token::EndFunction.is_statement_keyword());
    assert!(!Token::Identifier("x".to_string()).is_keyword());
}

#[test]
fn test_binary_op_precedence() {
    assert!(BinaryOp::Multiply.precedence() > BinaryOp::Add.precedence());
    assert!(BinaryOp::Add.precedence() > BinaryOp::Equal.precedence());
    assert!(BinaryOp::Equal.precedence() > BinaryOp::And.precedence());
    assert!(BinaryOp::And.precedence() > BinaryOp::Or.precedence());
}

#[test]
fn test_binary_op_associativity() {
    assert!(BinaryOp::Add.is_left_associative());
    assert!(BinaryOp::Multiply.is_left_associative());
    assert!(BinaryOp::Equal.is_left_associative());
}

#[test]
fn binary_op_precedence_values() {
    assert_eq!(BinaryOp::Or.precedence(), 1);
    assert_eq!(BinaryOp::Less.precedence(), 4);
    assert_eq!(BinaryOp::PathJoin.precedence(), 6);
}

#[test]
fn parser_left_associative_subtraction() {
    let mut parser = Parser::new("a - b - c");
    let expr = parser.parse_expression().unwrap();
    match expr {
        Expr::Binary { operator: BinaryOp::Subtract, left, right } => {
            assert!(matches!(*left, Expr::Binary { operator: BinaryOp::Subtract, .. }));
            assert!(matches!(*right, Expr::Variable(ref n) if n == "c"));
        }
        _ => panic!("Expected subtraction"),
    }
}

#[test]
fn parser_index_unary_throw_and_trailing_comma() {
    let mut parser = Parser::new("not -x[1][2]");
    let expr = parser.parse_expression().unwrap();
    assert!(matches!(expr, Expr::Unary { .. }));
    let mut parser = Parser::new("[1, 2,]");
    match parser.parse_expression().unwrap() {
        Expr::ArrayLiteral { elements } => assert_eq!(elements.len(), 2),
        _ => panic!("Expected array literal"),
    }
    let mut parser = Parser::new("throw 'boom'");
    assert!(matches!(parser.parse_expression().unwrap(), Expr::ThrowStatement { .. }));
}

#[test]
fn parser_syntax_errors() {
    assert!(Parser::new("(1 + 2").parse_expression().is_err());
    assert!(Parser::new("").parse_expression().is_err());
    assert!(Parser::new("f(1,").parse_expression().is_err());
    assert!(Parser::new("*").parse_expression().is_err());
}

#[test]
fn expression_lexer_keywords_and_quotes() {
    let mut lexer = expression::Lexer::new("\"x\" # endtry 'y' %");
    assert_eq!(lexer.next_token(), Token::Identifier("x".to_string()));
    assert_eq!(lexer.next_token(), Token::Identifier("endtry".to_string()));
    assert_eq!(lexer.next_token(), Token::String("y".to_string()));
    assert_eq!(lexer.next_token(), Token::EOF);
}
