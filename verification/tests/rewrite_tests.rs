use data_code::optimizer::ast::{ASTOptimizer, NumberArithmetic};
use data_code::optimizer::{Optimizer, OptimizerStats};
use data_code::parser::ast::Expr;
use data_code::parser::expression::Parser;
use data_code::parser::tokens::BinaryOp;
use data_code::value::Value;

struct F64;

fn num(a: &str) -> f64 {
    a.parse().unwrap_or(0.0)
}

impl NumberArithmetic for F64 {
    fn arithmetic(&self, a: &str, op: BinaryOp, b: &str) -> String {
        let (x, y) = (num(a), num(b));
        let r = match op {
            BinaryOp::Add => x + y,
            BinaryOp::Subtract => x - y,
            BinaryOp::Multiply => x * y,
            BinaryOp::Divide => x / y,
            _ => 0.0,
        };
        format!("{}", r)
    }

    fn is_zero(&self, a: &str) -> bool {
        num(a) == 0.0
    }

    fn compare(&self, a: &str, op: BinaryOp, b: &str) -> bool {
        let (x, y) = (num(a), num(b));
        match op {
            BinaryOp::Less => x < y,
            BinaryOp::Greater => x > y,
            BinaryOp::LessEqual => x <= y,
            BinaryOp::GreaterEqual => x >= y,
            BinaryOp::Equal => (x - y).abs() < f64::EPSILON,
            _ => (x - y).abs() >= f64::EPSILON,
        }
    }

    fn negate(&self, a: &str) -> String {
        format!("{}", -num(a))
    }

    fn second_is_smaller(&self, a: &str, b: &str) -> bool {
        let (x, y) = (num(a), num(b));
        let m = x.min(y);
        m.to_bits() == y.to_bits() && m.to_bits() != x.to_bits()
    }
}

fn parse(s: &str) -> Expr {
    Parser::new(s).parse_expression().unwrap()
}

fn optimized(s: &str) -> (String, usize) {
    let mut opt = ASTOptimizer::new(F64);
    let e = opt.optimize(parse(s)).unwrap();
    (format!("{:?}", e), opt.get_optimization_count())
}

#[test]
fn folds_number_arithmetic() {
    let (e, n) = optimized("10 + 5");
    assert_eq!(e, "Literal(Number(\"15\"))");
    assert_eq!(n, 1);
    let (e, n) = optimized("2 * 3 + 4");
    assert_eq!(e, "Literal(Number(\"10\"))");
    assert_eq!(n, 2);
    let (e, _) = optimized("7 / 2");
    assert_eq!(e, "Literal(Number(\"3.5\"))");
}

#[test]
fn division_by_zero_is_not_folded() {
    let (e, n) = optimized("1 / 0");
    assert!(e.starts_with("Binary"));
    assert_eq!(n, 0);
}

#[test]
fn folds_comparisons_strings_and_negation() {
    assert_eq!(optimized("2 < 3").0, "Literal(Bool(true))");
    assert_eq!(optimized("2 == 2").0, "Literal(Bool(true))");
    assert_eq!(optimized("'a' + 'b'").0, "Literal(String(\"ab\"))");
    assert_eq!(optimized("'a' != 'b'").0, "Literal(Bool(true))");
    assert_eq!(optimized("-5").0, "Literal(Number(\"-5\"))");
    assert_eq!(optimized("not true").0, "Literal(Bool(false))");
    assert_eq!(optimized("true and false").0, "Literal(Bool(false))");
    let (e, n) = optimized("'a' * 2");
    assert!(e.starts_with("Binary"));
    assert_eq!(n, 0);
}

#[test]
fn simplifies_boolean_expressions() {
    assert_eq!(optimized("x and true"), ("Variable(\"x\")".to_string(), 1));
    assert_eq!(optimized("true and x"), ("Variable(\"x\")".to_string(), 1));
    assert_eq!(optimized("x or false"), ("Variable(\"x\")".to_string(), 1));
    assert_eq!(optimized("x and false"), ("Literal(Bool(false))".to_string(), 1));
    assert_eq!(optimized("x or true"), ("Literal(Bool(true))".to_string(), 1));
    assert_eq!(optimized("not not x"), ("Variable(\"x\")".to_string(), 1));
    let (e, n) = optimized("x and y");
    assert!(e.starts_with("Binary"));
    assert_eq!(n, 0);
}

#[test]
fn combines_nested_filters() {
    let (e, n) = optimized("table_filter(table_filter(data, a), b)");
    assert_eq!(n, 1);
    assert_eq!(
        e,
        "FunctionCall { name: \"table_filter\", args: [Variable(\"data\"), Binary { left: Variable(\"a\"), operator: And, right: Variable(\"b\") }] }"
    );
}

#[test]
fn merges_nested_heads_to_the_smaller_count() {
    let (e, n) = optimized("table_head(table_head(data, 10), 5)");
    assert_eq!(n, 1);
    assert_eq!(e, "FunctionCall { name: \"table_head\", args: [Variable(\"data\"), Literal(Number(\"5\"))] }");
    let (e, _) = optimized("table_head(table_head(data, 3), 8)");
    assert_eq!(e, "FunctionCall { name: \"table_head\", args: [Variable(\"data\"), Literal(Number(\"3\"))] }");
    let (e, n) = optimized("table_head(table_head(data, n), 8)");
    assert_eq!(n, 0);
    assert!(e.contains("table_head\", args: [FunctionCall"));
}

#[test]
fn folds_inside_calls_arrays_and_indexes() {
    let (e, n) = optimized("f(1 + 1, [2 * 2], x[3 - 1])");
    assert_eq!(n, 3);
    assert_eq!(
        e,
        "FunctionCall { name: \"f\", args: [Literal(Number(\"2\")), ArrayLiteral { elements: [Literal(Number(\"4\"))] }, Index { object: Variable(\"x\"), index: Literal(Number(\"2\")) }] }"
    );
}

#[test]
fn folds_object_values() {
    let mut opt = ASTOptimizer::new(F64);
    let e = Expr::ObjectLiteral {
        pairs: vec![(
            "a".to_string(),
            Expr::Binary {
                left: Box::new(Expr::Literal(Value::Number("1".to_string()))),
                operator: BinaryOp::Add,
                right: Box::new(Expr::Literal(Value::Number("2".to_string()))),
            },
        )],
    };
    let r = opt.optimize(e).unwrap();
    assert_eq!(format!("{:?}", r), "ObjectLiteral { pairs: [(\"a\", Literal(Number(\"3\")))] }");
    assert_eq!(opt.get_optimization_count(), 1);
}

#[test]
fn counts_accumulate_over_calls() {
    let mut opt = ASTOptimizer::new(F64);
    assert_eq!(opt.get_optimization_count(), 0);
    let _ = opt.optimize(parse("1 + 1")).unwrap();
    let _ = opt.optimize(parse("x and true")).unwrap();
    assert_eq!(opt.get_optimization_count(), 2);
}

#[test]
fn optimizer_caches_optimized_expressions() {
    let mut opt = Optimizer::new(F64);
    let a = opt.optimize_expression("1 + 2").unwrap();
    assert_eq!(format!("{:?}", a), "Literal(Number(\"3\"))");
    let b = opt.optimize_expression("  1 + 2  ").unwrap();
    assert_eq!(format!("{:?}", b), "Literal(Number(\"3\"))");
    let stats = opt.get_stats();
    assert_eq!(stats.cache_hits, 1);
    assert_eq!(stats.cache_misses, 1);
    assert_eq!(stats.ast_optimizations, 1);
    assert_eq!(stats.static_analysis_errors, 0);
    assert!(!stats.is_effective());
    let _ = opt.optimize_expression("1 + 2").unwrap();
    assert!(opt.get_stats().is_effective());
    assert!(opt.optimize_expression("(1 +").is_err());
    assert_eq!(opt.get_stats().cache_misses, 2);
    assert_eq!(opt.parse_cache().size(), 1);
}

#[test]
fn optimizer_optimize_rewrites() {
    let mut opt = Optimizer::new(F64);
    let e = opt.optimize(parse("x or false")).unwrap();
    assert_eq!(format!("{:?}", e), "Variable(\"x\")");
    assert_eq!(opt.get_stats().ast_optimizations, 1);
}

#[test]
fn stats_effectiveness_needs_hits_and_rewrites() {
    let s = OptimizerStats { ast_optimizations: 1, cache_hits: 2, cache_misses: 1, static_analysis_errors: 0 };
    assert!(s.is_effective());
    let s = OptimizerStats { ast_optimizations: 1, cache_hits: 1, cache_misses: 1, static_analysis_errors: 0 };
    assert!(!s.is_effective());
    let s = OptimizerStats { ast_optimizations: 0, cache_hits: 5, cache_misses: 0, static_analysis_errors: 0 };
    assert!(!s.is_effective());
    let s = OptimizerStats { ast_optimizations: 3, cache_hits: 0, cache_misses: 0, static_analysis_errors: 0 };
    assert!(!s.is_effective());
}
