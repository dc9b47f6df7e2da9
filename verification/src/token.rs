use vstd::prelude::*;

verus! {

/// Lexical categories produced by the scanner. Tokens are value types compared
/// by structural equality: an identifier token equals only another identifier
/// token carrying the same name.
#[derive(Debug)]
pub enum Token {
    Illegal,
    EOF,
    // Identifiers + literals
    Ident(String),
    Int(i32),
    // Operators
    Assign,
    Plus,
    Minus,
    Bang,
    Asterisk,
    Slash,
    Lt,
    Gt,
    Eq,
    NotEq,
    // Delimiters
    Comma,
    Semicolon,
    LParen,
    RParen,
    LBrace,
    RBrace,
    // Keywords
    Function,
    Let,
    True,
    False,
    If,
    Else,
    Return,
}

/// Mathematical model of a token: identifier names abstract to character
/// sequences, every other variant mirrors `Token` directly.
pub enum TokenV {
    Illegal,
    EOF,
    Ident(Seq<char>),
    Int(i32),
    Assign,
    Plus,
    Minus,
    Bang,
    Asterisk,
    Slash,
    Lt,
    Gt,
    Eq,
    NotEq,
    Comma,
    Semicolon,
    LParen,
    RParen,
    LBrace,
    RBrace,
    Function,
    Let,
    True,
    False,
    If,
    Else,
    Return,
}

impl View for Token {
    type V = TokenV;

    open spec fn view(&self) -> TokenV {
        match self {
            Token::Illegal => TokenV::Illegal,
            Token::EOF => TokenV::EOF,
            Token::Ident(s) => TokenV::Ident(s@),
            Token::Int(x) => TokenV::Int(*x),
            Token::Assign => TokenV::Assign,
            Token::Plus => TokenV::Plus,
            Token::Minus => TokenV::Minus,
            Token::Bang => TokenV::Bang,
            Token::Asterisk => TokenV::Asterisk,
            Token::Slash => TokenV::Slash,
            Token::Lt => TokenV::Lt,
            Token::Gt => TokenV::Gt,
            Token::Eq => TokenV::Eq,
            Token::NotEq => TokenV::NotEq,
            Token::Comma => TokenV::Comma,
            Token::Semicolon => TokenV::Semicolon,
            Token::LParen => TokenV::LParen,
            Token::RParen => TokenV::RParen,
            Token::LBrace => TokenV::LBrace,
            Token::RBrace => TokenV::RBrace,
            Token::Function => TokenV::Function,
            Token::Let => TokenV::Let,
            Token::True => TokenV::True,
            Token::False => TokenV::False,
            Token::If => TokenV::If,
            Token::Else => TokenV::Else,
            Token::Return => TokenV::Return,
        }
    }
}

impl Clone for Token {
    fn clone(&self) -> (r: Token)
        ensures
            r@ == self@,
    {
        match self {
            Token::Illegal => Token::Illegal,
            Token::EOF => Token::EOF,
            Token::Ident(s) => Token::Ident(s.clone()),
            Token::Int(x) => Token::Int(*x),
            Token::Assign => Token::Assign,
            Token::Plus => Token::Plus,
            Token::Minus => Token::Minus,
            Token::Bang => Token::Bang,
            Token::Asterisk => Token::Asterisk,
            Token::Slash => Token::Slash,
            Token::Lt => Token::Lt,
            Token::Gt => Token::Gt,
            Token::Eq => Token::Eq,
            Token::NotEq => Token::NotEq,
            Token::Comma => Token::Comma,
            Token::Semicolon => Token::Semicolon,
            Token::LParen => Token::LParen,
            Token::RParen => Token::RParen,
            Token::LBrace => Token::LBrace,
            Token::RBrace => Token::RBrace,
            Token::Function => Token::Function,
            Token::Let => Token::Let,
            Token::True => Token::True,
            Token::False => Token::False,
            Token::If => Token::If,
            Token::Else => Token::Else,
            Token::Return => Token::Return,
        }
    }
}

impl PartialEq for Token {
    #[verifier::rlimit(60)]
    fn eq(&self, other: &Token) -> (r: bool) {
        match (self, other) {
            (Token::Illegal, Token::Illegal) => true,
            (Token::EOF, Token::EOF) => true,
            (Token::Ident(a), Token::Ident(b)) => *a == *b,
            (Token::Int(a), Token::Int(b)) => *a == *b,
            (Token::Assign, Token::Assign) => true,
            (Token::Plus, Token::Plus) => true,
            (Token::Minus, Token::Minus) => true,
            (Token::Bang, Token::Bang) => true,
            (Token::Asterisk, Token::Asterisk) => true,
            (Token::Slash, Token::Slash) => true,
            (Token::Lt, Token::Lt) => true,
            (Token::Gt, Token::Gt) => true,
            (Token::Eq, Token::Eq) => true,
            (Token::NotEq, Token::NotEq) => true,
            (Token::Comma, Token::Comma) => true,
            (Token::Semicolon, Token::Semicolon) => true,
            (Token::LParen, Token::LParen) => true,
            (Token::RParen, Token::RParen) => true,
            (Token::LBrace, Token::LBrace) => true,
            (Token::RBrace, Token::RBrace) => true,
            (Token::Function, Token::Function) => true,
            (Token::Let, Token::Let) => true,
            (Token::True, Token::True) => true,
            (Token::False, Token::False) => true,
            (Token::If, Token::If) => true,
            (Token::Else, Token::Else) => true,
            (Token::Return, Token::Return) => true,
            _ => false,
        }
    }
}

impl Eq for Token {}

impl vstd::std_specs::cmp::PartialEqSpecImpl for Token {
    open spec fn obeys_eq_spec() -> bool {
        true
    }

    open spec fn eq_spec(&self, other: &Token) -> bool {
        self@ == other@
    }
}

} // verus!
