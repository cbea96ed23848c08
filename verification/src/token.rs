//! Tokens produced by the lexer.
use vstd::prelude::*;
use crate::number::Num;

verus! {

#[derive(Clone, Copy, PartialEq, Eq, Structural, Debug)]
pub enum TokenType {
    // Single-character tokens
    LeftParen,
    RightParen,
    LeftBrace,
    RightBrace,
    Comma,
    Semicolon,
    // Operators
    Plus,
    Minus,
    Star,
    Slash,
    Modulo,
    Equal,
    NotEqual,
    Greater,
    GreaterEqual,
    Less,
    LessEqual,
    // Literals
    Identifier,
    String,
    Number,
    Boolean,
    // Keywords
    Yap,  // print
    Ts,  // variable declaration
    Pmo,  // assignment
    Gyat,  // array literal
    Hawk,  // function declaration
    Tuah,  // function body marker
    Goon,  // loop
    Edge,  // end of loop
    Yeet,  // read input
    Sybau,  // break
    Yo,  // if
    Gurt,  // else
    EOF,
}

/// A scalar literal carried by a token or held at runtime.
#[derive(Debug)]
pub enum Literal {
    String(String),
    Number(Num),
    Boolean(bool),
    Nil,
}

/// Mathematical image of a `Literal`: text as a character sequence,
/// a number as its mantissa.
#[verifier::ext_equal]
pub enum SpecLiteral {
    String(Seq<char>),
    Number(int),
    Boolean(bool),
    Nil,
}

impl View for Literal {
    type V = SpecLiteral;

    open spec fn view(&self) -> SpecLiteral {
        match self {
            Literal::String(s) => SpecLiteral::String(s@),
            Literal::Number(n) => SpecLiteral::Number(n@),
            Literal::Boolean(b) => SpecLiteral::Boolean(*b),
            Literal::Nil => SpecLiteral::Nil,
        }
    }
}

impl Clone for Literal {
    fn clone(&self) -> (r: Self)
        ensures
            r@ == self@,
    {
        match self {
            Literal::String(s) => Literal::String(s.clone()),
            Literal::Number(n) => Literal::Number(*n),
            Literal::Boolean(b) => Literal::Boolean(*b),
            Literal::Nil => Literal::Nil,
        }
    }
}

pub open spec fn opt_literal_view(l: Option<Literal>) -> Option<SpecLiteral> {
    match l {
        Some(x) => Some(x@),
        None => None,
    }
}

#[derive(Debug)]
pub struct Token {
    pub token_type: TokenType,
    pub lexeme: String,
    pub literal: Option<Literal>,
    pub line: usize,
}

/// Mathematical image of a `Token`.
#[verifier::ext_equal]
pub struct SpecToken {
    pub token_type: TokenType,
    pub lexeme: Seq<char>,
    pub literal: Option<SpecLiteral>,
    pub line: int,
}

impl View for Token {
    type V = SpecToken;

    open spec fn view(&self) -> SpecToken {
        SpecToken {
            token_type: self.token_type,
            lexeme: self.lexeme@,
            literal: opt_literal_view(self.literal),
            line: self.line as int,
        }
    }
}

impl Clone for Token {
    fn clone(&self) -> (r: Self)
        ensures
            r@ == self@,
    {
        Token {
            token_type: self.token_type,
            lexeme: self.lexeme.clone(),
            literal: match &self.literal {
                Some(l) => Some(l.clone()),
                None => None,
            },
            line: self.line,
        }
    }
}

impl Token {
    pub fn new(token_type: TokenType, lexeme: String, literal: Option<Literal>, line: usize) -> (t:
        Token)
        ensures
            t@ == (SpecToken {
                token_type,
                lexeme: lexeme@,
                literal: opt_literal_view(literal),
                line: line as int,
            }),
    {
        Token { token_type, lexeme, literal, line }
    }
}

pub open spec fn tokens_view(ts: Seq<Token>) -> Seq<SpecToken> {
    Seq::new(ts.len(), |i: int| ts[i]@)
}

} // verus!
