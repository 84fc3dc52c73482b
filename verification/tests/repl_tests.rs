use data_code::repl::{extract_variable_name, ReplAction, ReplState, SpecialCommand};

fn executed(a: ReplAction) -> Option<String> {
    match a {
        ReplAction::Execute(code) => Some(code),
        _ => None,
    }
}

#[test]
fn single_lines_and_commands() {
    let mut s = ReplState::new();
    assert_eq!(s.prompt(), ">>> ");
    assert!(matches!(s.feed("   "), ReplAction::Wait));
    assert!(matches!(s.feed("help"), ReplAction::Command(SpecialCommand::Help)));
    assert!(matches!(s.feed(" exit "), ReplAction::Command(SpecialCommand::Exit)));
    assert!(matches!(s.feed("quit"), ReplAction::Command(SpecialCommand::Exit)));
    assert!(matches!(s.feed("vars"), ReplAction::Command(SpecialCommand::Vars)));
    assert!(matches!(s.feed("reset"), ReplAction::Command(SpecialCommand::Reset)));
    assert!(matches!(s.feed("clear"), ReplAction::Command(SpecialCommand::Clear)));
    assert_eq!(executed(s.feed("  global x = 1  ")), Some("global x = 1".to_string()));
    assert!(!s.in_multiline());
}

#[test]
fn blocks_are_gathered_until_they_close() {
    let mut s = ReplState::new();
    assert!(matches!(s.feed("for i in xs do"), ReplAction::Wait));
    assert!(s.in_multiline());
    assert_eq!(s.prompt(), "... ");
    assert!(matches!(s.feed("  print(i)"), ReplAction::Wait));
    assert!(matches!(s.feed("help"), ReplAction::Wait));
    assert_eq!(executed(s.feed("forend")), Some("for i in xs do\nprint(i)\nhelp\nforend".to_string()));
    assert_eq!(s.prompt(), ">>> ");
    assert!(matches!(s.feed("if x > 1 then"), ReplAction::Wait));
    assert_eq!(s.prompt(), "if> ");
    assert_eq!(executed(s.feed("endif")), Some("if x > 1 then\nendif".to_string()));
    assert!(matches!(s.feed("local function f(a) do"), ReplAction::Wait));
    assert_eq!(s.prompt(), "fn> ");
    assert!(matches!(s.feed("endif"), ReplAction::Wait));
    assert_eq!(executed(s.feed("endfunction")), Some("local function f(a) do\nendif\nendfunction".to_string()));
    assert!(matches!(s.feed("global function g() do"), ReplAction::Wait));
    s.reset();
    assert!(!s.in_multiline());
    assert_eq!(executed(s.feed("for x")), Some("for x".to_string()));
}

#[test]
fn declared_names() {
    assert_eq!(extract_variable_name("global x = 5"), Some("x".to_string()));
    assert_eq!(extract_variable_name("  local   y=2"), Some("y".to_string()));
    assert_eq!(extract_variable_name("global a = b = c"), Some("a".to_string()));
    assert_eq!(extract_variable_name("x = 1"), None);
    assert_eq!(extract_variable_name("global x"), None);
}
