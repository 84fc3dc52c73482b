use data_code::parser::messages::{
    closing_keyword_message, end_of_block_message, expected_message, token_text, unexpected_message,
};
use data_code::parser::tokens::Token;

#[test]
fn messages_token_text() {
    assert_eq!(token_text(&Token::Plus), "Plus");
    assert_eq!(token_text(&Token::EOF), "EOF");
    assert_eq!(token_text(&Token::Identifier("x".to_string())), "Identifier(\"x\")");
    assert_eq!(token_text(&Token::Number("42".to_string())), "Number(\"42\")");
    assert_eq!(token_text(&Token::String("hi".to_string())), "String(\"hi\")");
    assert_eq!(token_text(&Token::Bool(false)), "Bool(false)");
}

#[test]
fn messages_syntax_errors() {
    assert_eq!(expected_message(&Token::RightParen, &Token::Comma), "Expected RightParen, found Comma");
    assert_eq!(unexpected_message(&Token::RightBracket), "Unexpected token: RightBracket");
    assert_eq!(
        closing_keyword_message(&Token::EndIf),
        "Unexpected closing keyword 'EndIf' outside of block"
    );
    assert_eq!(
        end_of_block_message(&[Token::Else, Token::EndIf]),
        "Unexpected end of file, expected one of: [Else, EndIf]"
    );
    assert_eq!(end_of_block_message(&[]), "Unexpected end of file, expected one of: []");
}
