//! Tokens: their kinds, literal payloads and source lines.
use vstd::prelude::*;
use crate::number::Number;
use crate::text::{push_str, string_of};

verus! {

/// The kinds of token that the scanner produces.
#[allow(non_camel_case_types)]
#[derive(Clone, Copy, Debug, PartialEq, Eq, Structural)]
pub enum TokenType {
    // Single-character tokens.
    LEFT_PAREN,
    RIGHT_PAREN,
    LEFT_BRACE,
    RIGHT_BRACE,
    COMMA,
    DOT,
    MINUS,
    PLUS,
    SEMICOLON,
    SLASH,
    STAR,
    // One or two character tokens.
    BANG,
    BANG_EQUAL,
    EQUAL,
    EQUAL_EQUAL,
    GREATER,
    GREATER_EQUAL,
    LESS,
    LESS_EQUAL,
    // Literals.
    IDENTIFIER,
    STRING,
    NUMBER,
    // Keywords.
    AND,
    CLASS,
    ELSE,
    FALSE,
    FUN,
    FOR,
    IF,
    NIL,
    OR,
    PRINT,
    RETURN,
    SUPER,
    THIS,
    TRUE,
    VAR,
    WHILE,
    EOF,
}

/// A literal value: the payload of a token, and the runtime value of the language.
#[derive(Debug)]
pub enum Literal {
    Number(Number),
    String(String),
    Nil,
    Bool(bool),
}

/// The mathematical model of a runtime value.
pub enum Value {
    Number(Number),
    Str(Seq<char>),
    Bool(bool),
    Nil,
}

impl View for Literal {
    type V = Value;

    open spec fn view(&self) -> Value {
        match self {
            Literal::Number(n) => Value::Number(*n),
            Literal::String(s) => Value::Str(s@),
            Literal::Nil => Value::Nil,
            Literal::Bool(b) => Value::Bool(*b),
        }
    }
}

impl Clone for Literal {
    fn clone(&self) -> (r: Self)
        ensures
            r == *self,
    {
        match self {
            Literal::Number(n) => Literal::Number(*n),
            Literal::String(s) => Literal::String(s.clone()),
            Literal::Nil => Literal::Nil,
            Literal::Bool(b) => Literal::Bool(*b),
        }
    }
}

/// The canonical text of a value: numbers in decimal, strings raw, `true` /
/// `false`, and `nil`.
pub open spec fn value_text(v: Value) -> Seq<char> {
    match v {
        Value::Number(n) => n.text(),
        Value::Str(s) => s,
        Value::Bool(b) => if b { "true"@ } else { "false"@ },
        Value::Nil => "nil"@,
    }
}

impl Literal {
    /// The canonical text of this value.
    pub fn to_text(&self) -> (r: String)
        ensures
            r@ == value_text(self@),
    {
        match self {
            Literal::Number(n) => {
                let mut s = String::new();
                n.push_text(&mut s);
                assert(s@ =~= n.text());
                s
            },
            Literal::String(s) => s.clone(),
            Literal::Bool(b) => if *b { string_of("true") } else { string_of("false") },
            Literal::Nil => string_of("nil"),
        }
    }
}

/// A token: its kind, the source text it was scanned from, its line, and its
/// literal payload (`Nil` where it has none).
#[derive(Debug)]
pub struct Token {
    pub token_type: TokenType,
    pub lexeme: String,
    pub line: usize,
    pub literal: Literal,
}

/// The mathematical model of a token.
pub struct TokenView {
    pub kind: TokenType,
    pub lexeme: Seq<char>,
    pub line: nat,
    pub literal: Value,
}

impl View for Token {
    type V = TokenView;

    open spec fn view(&self) -> TokenView {
        TokenView {
            kind: self.token_type,
            lexeme: self.lexeme@,
            line: self.line as nat,
            literal: self.literal@,
        }
    }
}

impl Clone for Token {
    fn clone(&self) -> (r: Self)
        ensures
            r == *self,
    {
        Token {
            token_type: self.token_type,
            lexeme: self.lexeme.clone(),
            line: self.line,
            literal: self.literal.clone(),
        }
    }
}

/// The text of a token inside a rendered expression: a number token shows its
/// value, any other its lexeme.
pub open spec fn token_text(t: Token) -> Seq<char> {
    match t.literal {
        Literal::Number(n) => n.text(),
        _ => t.lexeme@,
    }
}

impl Token {
    pub fn new(token_type: TokenType, lexeme: String, line: usize, literal: Literal) -> (r: Token)
        ensures
            r.token_type == token_type,
            r.lexeme == lexeme,
            r.line == line,
            r.literal == literal,
    {
        Token { token_type, lexeme, line, literal }
    }

    /// Appends the text of this token, as `token_text` gives it, to `s`.
    pub fn push_text(&self, s: &mut String)
        ensures
            final(s)@ == old(s)@ + token_text(*self),
    {
        match &self.literal {
            Literal::Number(n) => n.push_text(s),
            _ => push_str(s, self.lexeme.as_str()),
        }
    }
}

} // verus!
