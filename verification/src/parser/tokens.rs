//! Tokens, operators and declaration scopes of the DataCode language, and
//! the tree of statements and expressions that the statement parser builds.
use vstd::prelude::*;
use crate::value::{Value, ValueView};

verus! {

/// A lexical token.
///
/// A number literal keeps the text that the lexer read: the digits and dots
/// whose `f64` value (`0.0` where that text is not a number) the literal stands for.
#[derive(Debug, Clone, PartialEq)]
pub enum Token {
    /// A string literal, without its quotes.
    String(String),
    /// A number literal, as the digits and dots that the lexer read.
    Number(String),
    /// `true` or `false`.
    Bool(bool),
    /// `null`.
    Null,
    /// A name.
    Identifier(String),
    /// `+`.
    Plus,
    /// `-`.
    Minus,
    /// `*`.
    Multiply,
    /// `/`.
    Divide,
    /// `%`.
    Modulo,
    /// `/` between paths.
    PathJoin,
    /// `==`.
    Equal,
    /// `!=`.
    NotEqual,
    /// `<`.
    Less,
    /// `>`.
    Greater,
    /// `<=`.
    LessEqual,
    /// `>=`.
    GreaterEqual,
    /// `and`.
    And,
    /// `or`.
    Or,
    /// `not` or `!`.
    Not,
    /// `try`.
    Try,
    /// `catch`.
    Catch,
    /// `finally`.
    Finally,
    /// `endtry`.
    EndTry,
    /// `throw`.
    Throw,
    /// `function`.
    Function,
    /// `global`.
    Global,
    /// `local`.
    Local,
    /// `do`.
    Do,
    /// `endfunction`.
    EndFunction,
    /// `return`.
    Return,
    /// `if`.
    If,
    /// `else`.
    Else,
    /// `endif`.
    EndIf,
    /// `for`.
    For,
    /// `next`.
    Next,
    /// `in`.
    In,
    /// `print`.
    Print,
    /// `(`.
    LeftParen,
    /// `)`.
    RightParen,
    /// `[`.
    LeftBracket,
    /// `]`.
    RightBracket,
    /// `{`.
    LeftBrace,
    /// `}`.
    RightBrace,
    /// `,`.
    Comma,
    /// `.`.
    Dot,
    /// `:`.
    Colon,
    /// `=`.
    Assign,
    /// A line feed.
    Newline,
    /// The end of the input.
    EOF,
}

/// A token as the specifications see it: text held as a sequence of characters.
pub enum TokenView {
    /// A string literal, without its quotes.
    String(Seq<char>),
    /// A number literal, as the digits and dots that the lexer read.
    Number(Seq<char>),
    /// `true` or `false`.
    Bool(bool),
    /// `null`.
    Null,
    /// A name.
    Identifier(Seq<char>),
    /// `+`.
    Plus,
    /// `-`.
    Minus,
    /// `*`.
    Multiply,
    /// `/`.
    Divide,
    /// `%`.
    Modulo,
    /// `/` between paths.
    PathJoin,
    /// `==`.
    Equal,
    /// `!=`.
    NotEqual,
    /// `<`.
    Less,
    /// `>`.
    Greater,
    /// `<=`.
    LessEqual,
    /// `>=`.
    GreaterEqual,
    /// `and`.
    And,
    /// `or`.
    Or,
    /// `not` or `!`.
    Not,
    /// `try`.
    Try,
    /// `catch`.
    Catch,
    /// `finally`.
    Finally,
    /// `endtry`.
    EndTry,
    /// `throw`.
    Throw,
    /// `function`.
    Function,
    /// `global`.
    Global,
    /// `local`.
    Local,
    /// `do`.
    Do,
    /// `endfunction`.
    EndFunction,
    /// `return`.
    Return,
    /// `if`.
    If,
    /// `else`.
    Else,
    /// `endif`.
    EndIf,
    /// `for`.
    For,
    /// `next`.
    Next,
    /// `in`.
    In,
    /// `print`.
    Print,
    /// `(`.
    LeftParen,
    /// `)`.
    RightParen,
    /// `[`.
    LeftBracket,
    /// `]`.
    RightBracket,
    /// `{`.
    LeftBrace,
    /// `}`.
    RightBrace,
    /// `,`.
    Comma,
    /// `.`.
    Dot,
    /// `:`.
    Colon,
    /// `=`.
    Assign,
    /// A line feed.
    Newline,
    /// The end of the input.
    EOF,
}

impl View for Token {
    type V = TokenView;

    open spec fn view(&self) -> TokenView {
        match self {
            Token::String(s) => TokenView::String(s@),
            Token::Number(s) => TokenView::Number(s@),
            Token::Bool(b) => TokenView::Bool(*b),
            Token::Null => TokenView::Null,
            Token::Identifier(s) => TokenView::Identifier(s@),
            Token::Plus => TokenView::Plus,
            Token::Minus => TokenView::Minus,
            Token::Multiply => TokenView::Multiply,
            Token::Divide => TokenView::Divide,
            Token::Modulo => TokenView::Modulo,
            Token::PathJoin => TokenView::PathJoin,
            Token::Equal => TokenView::Equal,
            Token::NotEqual => TokenView::NotEqual,
            Token::Less => TokenView::Less,
            Token::Greater => TokenView::Greater,
            Token::LessEqual => TokenView::LessEqual,
            Token::GreaterEqual => TokenView::GreaterEqual,
            Token::And => TokenView::And,
            Token::Or => TokenView::Or,
            Token::Not => TokenView::Not,
            Token::Try => TokenView::Try,
            Token::Catch => TokenView::Catch,
            Token::Finally => TokenView::Finally,
            Token::EndTry => TokenView::EndTry,
            Token::Throw => TokenView::Throw,
            Token::Function => TokenView::Function,
            Token::Global => TokenView::Global,
            Token::Local => TokenView::Local,
            Token::Do => TokenView::Do,
            Token::EndFunction => TokenView::EndFunction,
            Token::Return => TokenView::Return,
            Token::If => TokenView::If,
            Token::Else => TokenView::Else,
            Token::EndIf => TokenView::EndIf,
            Token::For => TokenView::For,
            Token::Next => TokenView::Next,
            Token::In => TokenView::In,
            Token::Print => TokenView::Print,
            Token::LeftParen => TokenView::LeftParen,
            Token::RightParen => TokenView::RightParen,
            Token::LeftBracket => TokenView::LeftBracket,
            Token::RightBracket => TokenView::RightBracket,
            Token::LeftBrace => TokenView::LeftBrace,
            Token::RightBrace => TokenView::RightBrace,
            Token::Comma => TokenView::Comma,
            Token::Dot => TokenView::Dot,
            Token::Colon => TokenView::Colon,
            Token::Assign => TokenView::Assign,
            Token::Newline => TokenView::Newline,
            Token::EOF => TokenView::EOF,
        }
    }
}

impl Token {
    /// A string, number, boolean or `null` literal.
    pub fn is_literal(&self) -> (r: bool)
        ensures
            r == (self is String || self is Number || self is Bool || self is Null),
    {
        match self {
            Token::String(_) | Token::Number(_) | Token::Bool(_) | Token::Null => true,
            _ => false,
        }
    }

    /// An arithmetic, comparison or logical operator.
    pub fn is_operator(&self) -> (r: bool)
        ensures
            r == (self is Plus || self is Minus || self is Multiply || self is Divide
                || self is Modulo || self is Equal || self is NotEqual || self is Less
                || self is Greater || self is LessEqual || self is GreaterEqual || self is And
                || self is Or || self is Not),
    {
        match self {
            Token::Plus | Token::Minus | Token::Multiply | Token::Divide | Token::Modulo
            | Token::Equal | Token::NotEqual | Token::Less | Token::Greater | Token::LessEqual
            | Token::GreaterEqual | Token::And | Token::Or | Token::Not => true,
            _ => false,
        }
    }

    /// A keyword of the language.
    pub fn is_keyword(&self) -> (r: bool)
        ensures
            r == (self is And || self is Or || self is Not || self is Try || self is Catch
                || self is Finally || self is EndTry || self is Throw || self is Function
                || self is Global || self is Local || self is Do || self is EndFunction
                || self is Return || self is If || self is Else || self is EndIf || self is For
                || self is Next || self is In || self is Print),
    {
        match self {
            Token::And | Token::Or | Token::Not | Token::Try | Token::Catch | Token::Finally
            | Token::EndTry | Token::Throw | Token::Function | Token::Global | Token::Local
            | Token::Do | Token::EndFunction | Token::Return | Token::If | Token::Else
            | Token::EndIf | Token::For | Token::Next | Token::In | Token::Print => true,
            _ => false,
        }
    }

    /// A keyword that begins or ends a statement and cannot stand in an
    /// expression; `print` is not among them, since `print(..)` can be called
    /// inside an expression.
    pub fn is_statement_keyword(&self) -> (r: bool)
        ensures
            r == (self is If || self is For || self is Try || self is Function || self is Return
                || self is Global || self is Local || self is Else || self is EndIf
                || self is Next || self is Catch || self is EndTry || self is EndFunction
                || self is Do),
    {
        match self {
            Token::If | Token::For | Token::Try | Token::Function | Token::Return | Token::Global
            | Token::Local | Token::Else | Token::EndIf | Token::Next | Token::Catch
            | Token::EndTry | Token::EndFunction | Token::Do => true,
            _ => false,
        }
    }
}

/// The variant of a token, as a number: two tokens have the same kind when
/// they are the same variant, whatever text they hold.
pub open spec fn kind_of(t: TokenView) -> u8 {
    match t {
        TokenView::String(_) => 0,
        TokenView::Number(_) => 1,
        TokenView::Bool(_) => 2,
        TokenView::Null => 3,
        TokenView::Identifier(_) => 4,
        TokenView::Plus => 5,
        TokenView::Minus => 6,
        TokenView::Multiply => 7,
        TokenView::Divide => 8,
        TokenView::Modulo => 9,
        TokenView::PathJoin => 10,
        TokenView::Equal => 11,
        TokenView::NotEqual => 12,
        TokenView::Less => 13,
        TokenView::Greater => 14,
        TokenView::LessEqual => 15,
        TokenView::GreaterEqual => 16,
        TokenView::And => 17,
        TokenView::Or => 18,
        TokenView::Not => 19,
        TokenView::Try => 20,
        TokenView::Catch => 21,
        TokenView::Finally => 22,
        TokenView::EndTry => 23,
        TokenView::Throw => 24,
        TokenView::Function => 25,
        TokenView::Global => 26,
        TokenView::Local => 27,
        TokenView::Do => 28,
        TokenView::EndFunction => 29,
        TokenView::Return => 30,
        TokenView::If => 31,
        TokenView::Else => 32,
        TokenView::EndIf => 33,
        TokenView::For => 34,
        TokenView::Next => 35,
        TokenView::In => 36,
        TokenView::Print => 37,
        TokenView::LeftParen => 38,
        TokenView::RightParen => 39,
        TokenView::LeftBracket => 40,
        TokenView::RightBracket => 41,
        TokenView::LeftBrace => 42,
        TokenView::RightBrace => 43,
        TokenView::Comma => 44,
        TokenView::Dot => 45,
        TokenView::Colon => 46,
        TokenView::Assign => 47,
        TokenView::Newline => 48,
        TokenView::EOF => 49,
    }
}

/// Two tokens of the same kind are the same token when that kind holds no
/// text.
pub proof fn lemma_same_kind(t: TokenView, u: TokenView)
    requires
        kind_of(t) == kind_of(u),
        kind_of(u) == 3 || kind_of(u) >= 5,
    ensures
        t == u,
{
    match t {
        TokenView::String(_) => {},
        TokenView::Number(_) => {},
        TokenView::Bool(_) => {},
        TokenView::Identifier(_) => {},
        _ => {
            match u {
                TokenView::String(_) => {},
                TokenView::Number(_) => {},
                TokenView::Bool(_) => {},
                TokenView::Identifier(_) => {},
                _ => {},
            }
        },
    }
}

impl Token {
    /// The token's variant, as a number (see `kind_of`).
    pub fn kind(&self) -> (r: u8)
        ensures
            r == kind_of(self@),
    {
        match self {
            Token::String(_) => 0,
            Token::Number(_) => 1,
            Token::Bool(_) => 2,
            Token::Null => 3,
            Token::Identifier(_) => 4,
            Token::Plus => 5,
            Token::Minus => 6,
            Token::Multiply => 7,
            Token::Divide => 8,
            Token::Modulo => 9,
            Token::PathJoin => 10,
            Token::Equal => 11,
            Token::NotEqual => 12,
            Token::Less => 13,
            Token::Greater => 14,
            Token::LessEqual => 15,
            Token::GreaterEqual => 16,
            Token::And => 17,
            Token::Or => 18,
            Token::Not => 19,
            Token::Try => 20,
            Token::Catch => 21,
            Token::Finally => 22,
            Token::EndTry => 23,
            Token::Throw => 24,
            Token::Function => 25,
            Token::Global => 26,
            Token::Local => 27,
            Token::Do => 28,
            Token::EndFunction => 29,
            Token::Return => 30,
            Token::If => 31,
            Token::Else => 32,
            Token::EndIf => 33,
            Token::For => 34,
            Token::Next => 35,
            Token::In => 36,
            Token::Print => 37,
            Token::LeftParen => 38,
            Token::RightParen => 39,
            Token::LeftBracket => 40,
            Token::RightBracket => 41,
            Token::LeftBrace => 42,
            Token::RightBrace => 43,
            Token::Comma => 44,
            Token::Dot => 45,
            Token::Colon => 46,
            Token::Assign => 47,
            Token::Newline => 48,
            Token::EOF => 49,
        }
    }
}

/// Binary operators.
#[derive(Debug, Clone, Copy, PartialEq, Eq, Structural)]
pub enum BinaryOp {
    Add,
    Subtract,
    Multiply,
    Divide,
    Modulo,
    PathJoin,
    Equal,
    NotEqual,
    Less,
    Greater,
    LessEqual,
    GreaterEqual,
    And,
    Or,
}

/// Unary operators.
#[derive(Debug, Clone, Copy, PartialEq, Eq, Structural)]
pub enum UnaryOp {
    Not,
    Minus,
}

/// The scope that a declaration names.
#[derive(Debug, Clone, Copy, PartialEq, Eq, Structural)]
pub enum DeclarationScope {
    Global,
    Local,
}

/// Binding strength of a binary operator: the larger, the tighter.
pub open spec fn precedence_of(op: BinaryOp) -> u8 {
    match op {
        BinaryOp::Or => 1,
        BinaryOp::And => 2,
        BinaryOp::Equal | BinaryOp::NotEqual => 3,
        BinaryOp::Less | BinaryOp::Greater | BinaryOp::LessEqual | BinaryOp::GreaterEqual => 4,
        BinaryOp::Add | BinaryOp::Subtract => 5,
        BinaryOp::Multiply | BinaryOp::Divide | BinaryOp::Modulo | BinaryOp::PathJoin => 6,
    }
}

impl BinaryOp {
    /// The operator's precedence (higher binds tighter).
    pub fn precedence(&self) -> (r: u8)
        ensures
            r == precedence_of(*self),
    {
        match self {
            BinaryOp::Or => 1,
            BinaryOp::And => 2,
            BinaryOp::Equal | BinaryOp::NotEqual => 3,
            BinaryOp::Less | BinaryOp::Greater | BinaryOp::LessEqual | BinaryOp::GreaterEqual => 4,
            BinaryOp::Add | BinaryOp::Subtract => 5,
            BinaryOp::Multiply | BinaryOp::Divide | BinaryOp::Modulo | BinaryOp::PathJoin => 6,
        }
    }

    /// Whether the operator groups to the left: every binary operator does.
    pub fn is_left_associative(&self) -> (r: bool)
        ensures
            r,
    {
        true
    }
}

/// The precedence levels are ordered: multiplicative operators bind tighter
/// than additive ones, which bind tighter than comparisons, then equality,
/// then `and`, then `or`.
pub proof fn lemma_precedence_order(a: BinaryOp, b: BinaryOp)
    ensures
        (a is Multiply || a is Divide || a is Modulo || a is PathJoin) && (b is Add || b is Subtract)
            ==> precedence_of(a) > precedence_of(b),
        (a is Add || a is Subtract) && (b is Less || b is Greater || b is LessEqual || b is GreaterEqual)
            ==> precedence_of(a) > precedence_of(b),
        (a is Less || a is Greater || a is LessEqual || a is GreaterEqual) && (b is Equal || b is NotEqual)
            ==> precedence_of(a) > precedence_of(b),
        (a is Equal || a is NotEqual) && b is And ==> precedence_of(a) > precedence_of(b),
        a is And && b is Or ==> precedence_of(a) > precedence_of(b),
        1 <= precedence_of(a) <= 6,
{
}

/// A statement or an expression, as the statement and expression parsers
/// build them.
#[derive(Debug)]
pub enum Expr {
    Literal(Value),
    Variable(String),
    Binary { left: Box<Expr>, operator: BinaryOp, right: Box<Expr> },
    Unary { operator: UnaryOp, operand: Box<Expr> },
    /// A call with its positional arguments, then its named ones.
    FunctionCall { name: String, args: Vec<Expr>, named_args: Vec<(String, Expr)> },
    /// `name = value` among the arguments of a call.
    NamedArg { name: String, value: Box<Expr> },
    Index { object: Box<Expr>, index: Box<Expr> },
    Member { object: Box<Expr>, member: String },
    ArrayLiteral { elements: Vec<Expr> },
    ObjectLiteral { pairs: Vec<(String, Expr)> },
    /// `*expression` among the arguments of a call.
    Spread { expression: Box<Expr> },
    Assignment { target: Box<Expr>, value: Box<Expr> },
    Declaration { scope: DeclarationScope, names: Vec<String> },
    ReturnStmt { value: Option<Box<Expr>> },
    PrintStmt { args: Vec<Expr> },
    ExprStmt { expr: Box<Expr> },
    Block { statements: Vec<Expr> },
    IfStmt { condition: Box<Expr>, then_block: Box<Expr>, else_block: Option<Box<Expr>> },
    ForStmt { vars: Vec<String>, iter_expr: Box<Expr>, body: Box<Expr> },
    TryStmt { try_block: Box<Expr>, catch_var: String, catch_block: Box<Expr> },
    FunctionDef { name: String, params: Vec<String>, body: Box<Expr> },
    ThrowStatement { message: Box<Expr> },
}

/// A statement or expression as the specifications see it.
pub enum Node {
    Literal(ValueView),
    Variable(Seq<char>),
    Binary(Box<Node>, BinaryOp, Box<Node>),
    Unary(UnaryOp, Box<Node>),
    FunctionCall(Seq<char>, Seq<Node>, Seq<(Seq<char>, Node)>),
    NamedArg(Seq<char>, Box<Node>),
    Index(Box<Node>, Box<Node>),
    Member(Box<Node>, Seq<char>),
    ArrayLiteral(Seq<Node>),
    ObjectLiteral(Seq<(Seq<char>, Node)>),
    Spread(Box<Node>),
    Assignment(Box<Node>, Box<Node>),
    Declaration(DeclarationScope, Seq<Seq<char>>),
    ReturnStmt(Option<Box<Node>>),
    PrintStmt(Seq<Node>),
    ExprStmt(Box<Node>),
    Block(Seq<Node>),
    IfStmt(Box<Node>, Box<Node>, Option<Box<Node>>),
    ForStmt(Seq<Seq<char>>, Box<Node>, Box<Node>),
    TryStmt(Box<Node>, Seq<char>, Box<Node>),
    FunctionDef(Seq<char>, Seq<Seq<char>>, Box<Node>),
    ThrowStatement(Box<Node>),
}

/// The texts of a list of names.
pub open spec fn names_of(v: Seq<String>) -> Seq<Seq<char>> {
    v.map_values(|s: String| s@)
}

/// The views of a list of nodes.
pub open spec fn nodes(v: Seq<Expr>) -> Seq<Node>
    decreases v,
{
    if v.len() == 0 {
        Seq::empty()
    } else {
        seq![v[0].view()] + nodes(v.subrange(1, v.len() as int))
    }
}

/// The views of a list of named nodes.
pub open spec fn named_nodes(v: Seq<(String, Expr)>) -> Seq<(Seq<char>, Node)>
    decreases v,
{
    if v.len() == 0 {
        Seq::empty()
    } else {
        seq![(v[0].0@, v[0].1.view())] + named_nodes(v.subrange(1, v.len() as int))
    }
}

impl View for Expr {
    type V = Node;

    open spec fn view(&self) -> Node
        decreases self,
    {
        match self {
            Expr::Literal(v) => Node::Literal(v@),
            Expr::Variable(n) => Node::Variable(n@),
            Expr::Binary { left, operator, right } => Node::Binary(
                Box::new((**left).view()),
                *operator,
                Box::new((**right).view()),
            ),
            Expr::Unary { operator, operand } => Node::Unary(*operator, Box::new((**operand).view())),
            Expr::FunctionCall { name, args, named_args } => Node::FunctionCall(
                name@,
                nodes(args@),
                named_nodes(named_args@),
            ),
            Expr::NamedArg { name, value } => Node::NamedArg(name@, Box::new((**value).view())),
            Expr::Index { object, index } => Node::Index(Box::new((**object).view()), Box::new((**index).view())),
            Expr::Member { object, member } => Node::Member(Box::new((**object).view()), member@),
            Expr::ArrayLiteral { elements } => Node::ArrayLiteral(nodes(elements@)),
            Expr::ObjectLiteral { pairs } => Node::ObjectLiteral(named_nodes(pairs@)),
            Expr::Spread { expression } => Node::Spread(Box::new((**expression).view())),
            Expr::Assignment { target, value } => Node::Assignment(
                Box::new((**target).view()),
                Box::new((**value).view()),
            ),
            Expr::Declaration { scope, names } => Node::Declaration(*scope, names_of(names@)),
            Expr::ReturnStmt { value } => Node::ReturnStmt(match value {
                Some(v) => Some(Box::new((**v).view())),
                None => None,
            }),
            Expr::PrintStmt { args } => Node::PrintStmt(nodes(args@)),
            Expr::ExprStmt { expr } => Node::ExprStmt(Box::new((**expr).view())),
            Expr::Block { statements } => Node::Block(nodes(statements@)),
            Expr::IfStmt { condition, then_block, else_block } => Node::IfStmt(
                Box::new((**condition).view()),
                Box::new((**then_block).view()),
                match else_block {
                    Some(b) => Some(Box::new((**b).view())),
                    None => None,
                },
            ),
            Expr::ForStmt { vars, iter_expr, body } => Node::ForStmt(
                names_of(vars@),
                Box::new((**iter_expr).view()),
                Box::new((**body).view()),
            ),
            Expr::TryStmt { try_block, catch_var, catch_block } => Node::TryStmt(
                Box::new((**try_block).view()),
                catch_var@,
                Box::new((**catch_block).view()),
            ),
            Expr::FunctionDef { name, params, body } => Node::FunctionDef(
                name@,
                names_of(params@),
                Box::new((**body).view()),
            ),
            Expr::ThrowStatement { message } => Node::ThrowStatement(Box::new((**message).view())),
        }
    }
}

/// `nodes` maps each expression to its view, keeping the order.
pub proof fn lemma_nodes(v: Seq<Expr>)
    ensures
        nodes(v).len() == v.len(),
        forall|i: int| 0 <= i < v.len() ==> #[trigger] nodes(v)[i] == v[i]@,
    decreases v.len(),
{
    if v.len() == 0 {
        assert(nodes(v) == Seq::<Node>::empty());
    } else {
        let rest = v.subrange(1, v.len() as int);
        lemma_nodes(rest);
        assert(nodes(v) == seq![v[0]@] + nodes(rest));
        assert forall|i: int| 0 <= i < v.len() implies #[trigger] nodes(v)[i] == v[i]@ by {
            if i > 0 {
                assert(rest[i - 1] == v[i]);
            }
        }
    }
}

/// Appending an expression appends its view.
pub proof fn lemma_nodes_push(v: Seq<Expr>, e: Expr)
    ensures
        nodes(v.push(e)) == nodes(v).push(e@),
{
    lemma_nodes(v);
    lemma_nodes(v.push(e));
    assert(nodes(v.push(e)) =~= nodes(v).push(e@));
}

/// `named_nodes` maps each pair to its name's text and its view.
pub proof fn lemma_named_nodes(v: Seq<(String, Expr)>)
    ensures
        named_nodes(v).len() == v.len(),
        forall|i: int| 0 <= i < v.len() ==> #[trigger] named_nodes(v)[i] == (v[i].0@, v[i].1@),
    decreases v.len(),
{
    if v.len() == 0 {
        assert(named_nodes(v) == Seq::<(Seq<char>, Node)>::empty());
    } else {
        let rest = v.subrange(1, v.len() as int);
        lemma_named_nodes(rest);
        assert(named_nodes(v) == seq![(v[0].0@, v[0].1@)] + named_nodes(rest));
        assert forall|i: int| 0 <= i < v.len() implies #[trigger] named_nodes(v)[i] == (v[i].0@, v[i].1@) by {
            if i > 0 {
                assert(rest[i - 1] == v[i]);
            }
        }
    }
}

/// Appending a pair appends its name's text and its view.
pub proof fn lemma_named_nodes_push(v: Seq<(String, Expr)>, name: String, e: Expr)
    ensures
        named_nodes(v.push((name, e))) == named_nodes(v).push((name@, e@)),
{
    lemma_named_nodes(v);
    lemma_named_nodes(v.push((name, e)));
    assert(named_nodes(v.push((name, e))) =~= named_nodes(v).push((name@, e@)));
}

} // verus!
