//! The texts of syntax errors: each token is shown by its kind, with its
//! text in quotes where it has one.
use vstd::prelude::*;
use crate::text::{owned, push_string};
use super::tokens::{Token, TokenView};

verus! {

/// How a token is shown in a message: its kind, followed by its text in
/// quotes or its truth value in brackets where it has one.
pub open spec fn token_name(t: TokenView) -> Seq<char> {
    match t {
        TokenView::String(s) => "String(\""@ + s + "\")"@,
        TokenView::Number(s) => "Number(\""@ + s + "\")"@,
        TokenView::Identifier(s) => "Identifier(\""@ + s + "\")"@,
        TokenView::Bool(b) => if b { "Bool(true)"@ } else { "Bool(false)"@ },
        TokenView::Null => "Null"@,
        TokenView::Plus => "Plus"@,
        TokenView::Minus => "Minus"@,
        TokenView::Multiply => "Multiply"@,
        TokenView::Divide => "Divide"@,
        TokenView::Modulo => "Modulo"@,
        TokenView::PathJoin => "PathJoin"@,
        TokenView::Equal => "Equal"@,
        TokenView::NotEqual => "NotEqual"@,
        TokenView::Less => "Less"@,
        TokenView::Greater => "Greater"@,
        TokenView::LessEqual => "LessEqual"@,
        TokenView::GreaterEqual => "GreaterEqual"@,
        TokenView::And => "And"@,
        TokenView::Or => "Or"@,
        TokenView::Not => "Not"@,
        TokenView::Try => "Try"@,
        TokenView::Catch => "Catch"@,
        TokenView::Finally => "Finally"@,
        TokenView::EndTry => "EndTry"@,
        TokenView::Throw => "Throw"@,
        TokenView::Function => "Function"@,
        TokenView::Global => "Global"@,
        TokenView::Local => "Local"@,
        TokenView::Do => "Do"@,
        TokenView::EndFunction => "EndFunction"@,
        TokenView::Return => "Return"@,
        TokenView::If => "If"@,
        TokenView::Else => "Else"@,
        TokenView::EndIf => "EndIf"@,
        TokenView::For => "For"@,
        TokenView::Next => "Next"@,
        TokenView::In => "In"@,
        TokenView::Print => "Print"@,
        TokenView::LeftParen => "LeftParen"@,
        TokenView::RightParen => "RightParen"@,
        TokenView::LeftBracket => "LeftBracket"@,
        TokenView::RightBracket => "RightBracket"@,
        TokenView::LeftBrace => "LeftBrace"@,
        TokenView::RightBrace => "RightBrace"@,
        TokenView::Comma => "Comma"@,
        TokenView::Dot => "Dot"@,
        TokenView::Colon => "Colon"@,
        TokenView::Assign => "Assign"@,
        TokenView::Newline => "Newline"@,
        TokenView::EOF => "EOF"@,
    }
}

/// `prefix`, then `text`, then `suffix`.
fn framed(prefix: &str, text: &str, suffix: &str) -> (r: String)
    ensures
        r@ == prefix@ + text@ + suffix@,
{
    let mut m = owned(prefix);
    push_string(&mut m, text);
    push_string(&mut m, suffix);
    m
}

/// How a token is shown in a message (see `token_name`).
pub fn token_text(t: &Token) -> (r: String)
    ensures
        r@ == token_name(t@),
{
    match t {
        Token::String(s) => framed("String(\"", s.as_str(), "\")"),
        Token::Number(s) => framed("Number(\"", s.as_str(), "\")"),
        Token::Identifier(s) => framed("Identifier(\"", s.as_str(), "\")"),
        Token::Bool(b) => if *b { owned("Bool(true)") } else { owned("Bool(false)") },
        Token::Null => owned("Null"),
        Token::Plus => owned("Plus"),
        Token::Minus => owned("Minus"),
        Token::Multiply => owned("Multiply"),
        Token::Divide => owned("Divide"),
        Token::Modulo => owned("Modulo"),
        Token::PathJoin => owned("PathJoin"),
        Token::Equal => owned("Equal"),
        Token::NotEqual => owned("NotEqual"),
        Token::Less => owned("Less"),
        Token::Greater => owned("Greater"),
        Token::LessEqual => owned("LessEqual"),
        Token::GreaterEqual => owned("GreaterEqual"),
        Token::And => owned("And"),
        Token::Or => owned("Or"),
        Token::Not => owned("Not"),
        Token::Try => owned("Try"),
        Token::Catch => owned("Catch"),
        Token::Finally => owned("Finally"),
        Token::EndTry => owned("EndTry"),
        Token::Throw => owned("Throw"),
        Token::Function => owned("Function"),
        Token::Global => owned("Global"),
        Token::Local => owned("Local"),
        Token::Do => owned("Do"),
        Token::EndFunction => owned("EndFunction"),
        Token::Return => owned("Return"),
        Token::If => owned("If"),
        Token::Else => owned("Else"),
        Token::EndIf => owned("EndIf"),
        Token::For => owned("For"),
        Token::Next => owned("Next"),
        Token::In => owned("In"),
        Token::Print => owned("Print"),
        Token::LeftParen => owned("LeftParen"),
        Token::RightParen => owned("RightParen"),
        Token::LeftBracket => owned("LeftBracket"),
        Token::RightBracket => owned("RightBracket"),
        Token::LeftBrace => owned("LeftBrace"),
        Token::RightBrace => owned("RightBrace"),
        Token::Comma => owned("Comma"),
        Token::Dot => owned("Dot"),
        Token::Colon => owned("Colon"),
        Token::Assign => owned("Assign"),
        Token::Newline => owned("Newline"),
        Token::EOF => owned("EOF"),
    }
}

/// The message for a token of the wrong kind.
pub open spec fn expected_text(expected: TokenView, found: TokenView) -> Seq<char> {
    "Expected "@ + token_name(expected) + ", found "@ + token_name(found)
}

/// The message for a token that begins no expression.
pub open spec fn unexpected_text(found: TokenView) -> Seq<char> {
    "Unexpected token: "@ + token_name(found)
}

/// The message for a closing keyword outside a block.
pub open spec fn closing_keyword_text(found: TokenView) -> Seq<char> {
    "Unexpected closing keyword '"@ + token_name(found) + "' outside of block"@
}

/// The names of tokens, each after the first preceded by `, `.
pub open spec fn token_list(ts: Seq<TokenView>) -> Seq<char>
    decreases ts.len(),
{
    if ts.len() == 0 {
        Seq::empty()
    } else if ts.len() == 1 {
        token_name(ts[0])
    } else {
        token_list(ts.drop_last()) + ", "@ + token_name(ts.last())
    }
}

/// The views of a list of tokens.
pub open spec fn token_views(ts: Seq<Token>) -> Seq<TokenView> {
    ts.map_values(|t: Token| t@)
}

/// The message for a block that the input ends in, listing the tokens that
/// could have closed it.
pub open spec fn end_of_block_text(terminators: Seq<TokenView>) -> Seq<char> {
    "Unexpected end of file, expected one of: ["@ + token_list(terminators) + "]"@
}

/// The message for a token of the wrong kind (see `expected_text`).
pub fn expected_message(expected: &Token, found: &Token) -> (r: String)
    ensures
        r@ == expected_text(expected@, found@),
{
    let mut m = owned("Expected ");
    push_string(&mut m, token_text(expected).as_str());
    push_string(&mut m, ", found ");
    push_string(&mut m, token_text(found).as_str());
    m
}

/// The message for a token that begins no expression (see
/// `unexpected_text`).
pub fn unexpected_message(found: &Token) -> (r: String)
    ensures
        r@ == unexpected_text(found@),
{
    let mut m = owned("Unexpected token: ");
    push_string(&mut m, token_text(found).as_str());
    m
}

/// The message for a closing keyword outside a block (see
/// `closing_keyword_text`).
pub fn closing_keyword_message(found: &Token) -> (r: String)
    ensures
        r@ == closing_keyword_text(found@),
{
    let t = token_text(found);
    framed("Unexpected closing keyword '", t.as_str(), "' outside of block")
}

/// The message for a block that the input ends in (see
/// `end_of_block_text`).
pub fn end_of_block_message(terminators: &[Token]) -> (r: String)
    ensures
        r@ == end_of_block_text(token_views(terminators@)),
{
    let ghost ts = token_views(terminators@);
    let mut list = String::new();
    let mut i: usize = 0;
    proof {
        assert(ts.take(0) =~= Seq::<TokenView>::empty());
    }
    while i < terminators.len()
        invariant
            i <= terminators@.len(),
            ts == token_views(terminators@),
            list@ == token_list(ts.take(i as int)),
        decreases terminators.len() - i,
    {
        let t = token_text(&terminators[i]);
        if i > 0 {
            push_string(&mut list, ", ");
        }
        push_string(&mut list, t.as_str());
        proof {
            let p = ts.take(i + 1);
            assert(p.drop_last() =~= ts.take(i as int));
            assert(p.last() == terminators@[i as int]@);
            if i == 0 {
                assert(list@ =~= token_name(p[0]));
            }
        }
        i = i + 1;
    }
    proof {
        assert(ts.take(terminators@.len() as int) =~= ts);
    }
    framed("Unexpected end of file, expected one of: [", list.as_str(), "]")
}

} // verus!
