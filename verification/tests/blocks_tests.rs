use data_code::error::DataCodeError;
use data_code::interpreter::blocks::{
    for_loop_body, for_loop_end, function_definition_end, if_statement_end, multiline_action,
    multiline_assignment_end, parse_for_header, split_if_statement, split_try_statement, try_statement_end,
    LineAction,
};

fn lines(v: &[&str]) -> Vec<String> {
    v.iter().map(|s| s.to_string()).collect()
}

fn message<T>(r: Result<T, DataCodeError>) -> (String, usize) {
    match r {
        Err(DataCodeError::SyntaxError { message, line, column }) => {
            assert_eq!(column, 0);
            (message, line)
        }
        Err(other) => panic!("unexpected error {:?}", other),
        Ok(_) => panic!("expected an error"),
    }
}

#[test]
fn blocks_function_definition_end() {
    let ls = lines(&["function f(a) do", "  return a", "  endfunction  ", "x = 1"]);
    assert_eq!(function_definition_end(&ls, 0), 2);
    let ls = lines(&["function f(a) do", "  return a"]);
    assert_eq!(function_definition_end(&ls, 0), 2);
}

#[test]
fn blocks_if_statement_end_counts_nesting() {
    let ls = lines(&["if a do", "if b then", "x", "endif", "y", "endif", "z"]);
    assert_eq!(if_statement_end(&ls, 0), 5);
    let ls = lines(&["if a do", "if b then", "endeif"]);
    assert_eq!(if_statement_end(&ls, 0), 3);
}

#[test]
fn blocks_try_statement_end_counts_nesting() {
    let ls = lines(&["try", "  try", "  catch e", "  endtry", "catch e", "endtry", "after"]);
    assert_eq!(try_statement_end(&ls, 0), 5);
    assert_eq!(try_statement_end(&lines(&["try", "x"]), 0), 2);
}

#[test]
fn blocks_for_loop_end_nested_loops() {
    let ls = lines(&["for i in xs do", "  for j in ys do", "    print(j)", "  next j", "next i", "after"]);
    assert_eq!(for_loop_end(&ls, 0, 7).unwrap(), 4);
    let ls = lines(&["for i, k in pairs do", "next i, k"]);
    assert_eq!(for_loop_end(&ls, 0, 1).unwrap(), 1);
}

#[test]
fn blocks_for_loop_end_passes_over_try_and_if() {
    let ls = lines(&[
        "for i in a do",
        "try",
        "next i",
        "catch e",
        "endtry",
        "if x do",
        "next i",
        "endif",
        "next i",
    ]);
    assert_eq!(for_loop_end(&ls, 0, 1).unwrap(), 8);
}

#[test]
fn blocks_for_loop_end_errors() {
    let (m, l) = message(for_loop_end(&lines(&["for i in xs do", "next j"]), 0, 12));
    assert_eq!(m, "Mismatched next: expected 'next i' but found 'next j'");
    assert_eq!(l, 12);
    let (m, _) = message(for_loop_end(&lines(&["for i in xs do", "x = 1"]), 0, 1));
    assert_eq!(m, "Missing 'next i' in for loop");
    let (m, _) = message(for_loop_end(&lines(&["x = 1", "next i"]), 0, 1));
    assert_eq!(m, "Invalid for syntax: expected 'for variable in iterable do'");
}

#[test]
fn blocks_split_if_statement_branches() {
    let ls = lines(&["if a > 1 do", "  x = 1", "else if b then", "  x = 2", "else", "  x = 3", "endif"]);
    let parts = split_if_statement(&ls, 1).unwrap();
    assert_eq!(parts.blocks.len(), 2);
    assert_eq!(parts.blocks[0].condition, "a > 1");
    assert_eq!(parts.blocks[0].body, vec!["  x = 1".to_string()]);
    assert_eq!(parts.blocks[1].condition, "b");
    assert_eq!(parts.blocks[1].body, vec!["  x = 2".to_string()]);
    assert_eq!(parts.else_body, Some(vec!["  x = 3".to_string()]));
}

#[test]
fn blocks_split_if_statement_keeps_nested_ifs() {
    let ls = lines(&["if a do", "if b do", "y", "endif", "endif"]);
    let parts = split_if_statement(&ls, 1).unwrap();
    assert_eq!(parts.blocks.len(), 1);
    assert_eq!(parts.blocks[0].body, vec!["if b do".to_string(), "y".to_string(), "endif".to_string()]);
    assert_eq!(parts.else_body, None);
}

#[test]
fn blocks_split_if_statement_errors() {
    let (m, l) = message(split_if_statement(&lines(&["if x do y", "endif"]), 4));
    assert_eq!(m, "Invalid if statement");
    assert_eq!(l, 4);
    let (m, _) = message(split_if_statement(&lines(&["if x do", "else if y do z", "endif"]), 4));
    assert_eq!(m, "Invalid else if statement");
    let parts = split_if_statement(&lines(&[]), 1).unwrap();
    assert!(parts.blocks.is_empty());
    assert!(parts.else_body.is_none());
}

#[test]
fn blocks_multiline_actions() {
    let ls = lines(&[
        "",
        "# note",
        "\"\"\"one line\"\"\"",
        "\"\"\"",
        "text",
        "end \"\"\"",
        "global function f(a) do",
        "for x in xs do",
        "if a then",
        "try",
        "global t = [1,",
        "print(1)",
        "\"\"\" open",
    ]);
    assert_eq!(multiline_action(&ls, 0), LineAction::Skip);
    assert_eq!(multiline_action(&ls, 1), LineAction::Skip);
    assert_eq!(multiline_action(&ls, 2), LineAction::Skip);
    assert_eq!(multiline_action(&ls, 3), LineAction::CommentUntil(5));
    assert_eq!(multiline_action(&ls, 6), LineAction::FunctionDefinition);
    assert_eq!(multiline_action(&ls, 7), LineAction::ForLoop);
    assert_eq!(multiline_action(&ls, 8), LineAction::IfStatement);
    assert_eq!(multiline_action(&ls, 9), LineAction::TryStatement);
    assert_eq!(multiline_action(&ls, 10), LineAction::MultilineAssignment);
    assert_eq!(multiline_action(&ls, 11), LineAction::Simple);
    assert_eq!(multiline_action(&ls, 12), LineAction::UnclosedComment);
}

#[test]
fn blocks_parse_for_header_single_variable() {
    let (vars, iter) = parse_for_header("  for item in [1, 2, 3] do ", 4).unwrap();
    assert_eq!(vars, vec!["item".to_string()]);
    assert_eq!(iter, "[1, 2, 3]");
}

#[test]
fn blocks_parse_for_header_destructuring() {
    let (vars, iter) = parse_for_header("for i , data in enum(rows) do", 1).unwrap();
    assert_eq!(vars, vec!["i".to_string(), "data".to_string()]);
    assert_eq!(iter, "enum(rows)");
}

#[test]
fn blocks_parse_for_header_errors() {
    assert_eq!(message(parse_for_header("while x do", 3)), ("Invalid for loop syntax".to_string(), 3));
    assert_eq!(message(parse_for_header("for x in y", 5)), ("Invalid for loop syntax".to_string(), 5));
    let expected = "Invalid for syntax: expected 'for variable in iterable do'".to_string();
    assert_eq!(message(parse_for_header("for x of y do", 6)), (expected.clone(), 6));
    assert_eq!(message(parse_for_header("for a in b in c do", 7)), (expected, 7));
}

#[test]
fn blocks_for_loop_body_plain() {
    let ls = lines(&["for x in xs do", "  print(x)", "  y = x", "next x", "after"]);
    assert_eq!(for_loop_body(&ls, "x"), lines(&["  print(x)", "  y = x"]));
}

#[test]
fn blocks_for_loop_body_nested_and_blocks() {
    let ls = lines(&[
        "for i, row in rows do",
        "  for j in row do",
        "    print(j)",
        "  next j",
        "  if i > 1 do",
        "    next i",
        "  endif",
        "  try",
        "    next i",
        "  catch e",
        "  endtry",
        "next i",
    ]);
    assert_eq!(
        for_loop_body(&ls, "i"),
        lines(&[
            "  for j in row do",
            "    print(j)",
            "  next j",
            "  if i > 1 do",
            "    next i",
            "  endif",
            "  try",
            "    next i",
            "  catch e",
            "  endtry",
        ])
    );
}

#[test]
fn blocks_for_loop_body_without_next() {
    let ls = lines(&["for x in xs do", "  a = 1", "next y"]);
    assert_eq!(for_loop_body(&ls, "x"), lines(&["  a = 1", "next y"]));
}

#[test]
fn blocks_multiline_assignment_end() {
    let ls = lines(&["global data = [", "  1,", "  2", "]", "print(data)"]);
    assert_eq!(multiline_assignment_end(&ls, 0), 3);
    let ls = lines(&["local x = {", "  a: 1"]);
    assert_eq!(multiline_assignment_end(&ls, 0), 2);
    let ls = lines(&["x = (", "1", ")"]);
    assert_eq!(multiline_assignment_end(&ls, 0), 1);
}

#[test]
fn blocks_split_try_statement() {
    let ls = lines(&[
        "try",
        "  x = 1",
        "  risky()",
        "catch  err ",
        "  print(err)",
        "finally",
        "  done = true",
        "endtry",
        "after = 1",
    ]);
    let p = split_try_statement(&ls);
    assert_eq!(p.try_body, lines(&["  x = 1", "  risky()"]));
    assert_eq!(p.catch_var, Some("err".to_string()));
    assert_eq!(p.catch_body, lines(&["  print(err)"]));
    assert_eq!(p.finally_body, lines(&["  done = true"]));
}

#[test]
fn blocks_split_try_statement_nested() {
    let ls = lines(&[
        "try",
        "  try",
        "    a()",
        "  catch inner",
        "    b()",
        "  endtry",
        "catch",
        "  c()",
        "endtry",
    ]);
    let p = split_try_statement(&ls);
    assert_eq!(p.try_body, lines(&["  try", "    a()", "  catch inner", "    b()"]));
    assert_eq!(p.catch_var, None);
    assert_eq!(p.catch_body, lines(&["  c()"]));
    assert!(p.finally_body.is_empty());
}

#[test]
fn blocks_split_try_statement_empty() {
    let p = split_try_statement(&[]);
    assert!(p.try_body.is_empty() && p.catch_body.is_empty() && p.finally_body.is_empty());
    assert_eq!(p.catch_var, None);
}
