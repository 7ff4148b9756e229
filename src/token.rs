//! Tokens: the lexical units of the language, and the keyword table.
use crate::text::{decimal, decimal_string, same_text, string_of};
use vstd::prelude::*;

verus! {

/// One lexical unit.
#[derive(Debug, PartialEq, Eq)]
pub enum Token {
    Illegal,
    Eof,
    Ident(String),
    Int(i64),
    Assign,
    Plus,
    Minus,
    Bang,
    Asterisk,
    Slash,
    LessThan,
    GreaterThan,
    Eq,
    NotEq,
    Comma,
    Semicolon,
    Lparen,
    Rparen,
    Lbrace,
    Rbrace,
    Function,
    Let,
    True,
    False,
    If,
    Else,
    Return,
}

/// The mathematical model of a [`Token`]: names become character sequences.
pub enum TokenV {
    Illegal,
    Eof,
    Ident(Seq<char>),
    Int(i64),
    Assign,
    Plus,
    Minus,
    Bang,
    Asterisk,
    Slash,
    LessThan,
    GreaterThan,
    Eq,
    NotEq,
    Comma,
    Semicolon,
    Lparen,
    Rparen,
    Lbrace,
    Rbrace,
    Function,
    Let,
    True,
    False,
    If,
    Else,
    Return,
}

impl View for Token {
    type V = TokenV;

    open spec fn view(&self) -> TokenV {
        match self {
            Token::Illegal => TokenV::Illegal,
            Token::Eof => TokenV::Eof,
            Token::Ident(s) => TokenV::Ident(s@),
            Token::Int(v) => TokenV::Int(*v),
            Token::Assign => TokenV::Assign,
            Token::Plus => TokenV::Plus,
            Token::Minus => TokenV::Minus,
            Token::Bang => TokenV::Bang,
            Token::Asterisk => TokenV::Asterisk,
            Token::Slash => TokenV::Slash,
            Token::LessThan => TokenV::LessThan,
            Token::GreaterThan => TokenV::GreaterThan,
            Token::Eq => TokenV::Eq,
            Token::NotEq => TokenV::NotEq,
            Token::Comma => TokenV::Comma,
            Token::Semicolon => TokenV::Semicolon,
            Token::Lparen => TokenV::Lparen,
            Token::Rparen => TokenV::Rparen,
            Token::Lbrace => TokenV::Lbrace,
            Token::Rbrace => TokenV::Rbrace,
            Token::Function => TokenV::Function,
            Token::Let => TokenV::Let,
            Token::True => TokenV::True,
            Token::False => TokenV::False,
            Token::If => TokenV::If,
            Token::Else => TokenV::Else,
            Token::Return => TokenV::Return,
        }
    }
}

/// The text of a token: its source spelling, `ILLEGAL` or `EOF` for the markers.
pub open spec fn literal(t: TokenV) -> Seq<char> {
    match t {
        TokenV::Illegal => "ILLEGAL"@,
        TokenV::Eof => "EOF"@,
        TokenV::Ident(s) => s,
        TokenV::Int(v) => decimal(v),
        TokenV::Assign => "="@,
        TokenV::Plus => "+"@,
        TokenV::Minus => "-"@,
        TokenV::Bang => "!"@,
        TokenV::Asterisk => "*"@,
        TokenV::Slash => "/"@,
        TokenV::LessThan => "<"@,
        TokenV::GreaterThan => ">"@,
        TokenV::Eq => "=="@,
        TokenV::NotEq => "!="@,
        TokenV::Comma => ","@,
        TokenV::Semicolon => ";"@,
        TokenV::Lparen => "("@,
        TokenV::Rparen => ")"@,
        TokenV::Lbrace => "{"@,
        TokenV::Rbrace => "}"@,
        TokenV::Function => "fn"@,
        TokenV::Let => "let"@,
        TokenV::True => "true"@,
        TokenV::False => "false"@,
        TokenV::If => "if"@,
        TokenV::Else => "else"@,
        TokenV::Return => "return"@,
    }
}

/// The token for a word: a keyword's own token, or an identifier.
pub open spec fn word_token(s: Seq<char>) -> TokenV {
    if s == "fn"@ {
        TokenV::Function
    } else if s == "let"@ {
        TokenV::Let
    } else if s == "true"@ {
        TokenV::True
    } else if s == "false"@ {
        TokenV::False
    } else if s == "if"@ {
        TokenV::If
    } else if s == "else"@ {
        TokenV::Else
    } else if s == "return"@ {
        TokenV::Return
    } else {
        TokenV::Ident(s)
    }
}

impl Token {
    /// The text of the token (see [`literal`]).
    pub fn to_literal(&self) -> (r: String)
        ensures
            r@ == literal(self@),
    {
        match self {
            Token::Illegal => string_of("ILLEGAL"),
            Token::Eof => string_of("EOF"),
            Token::Ident(s) => s.clone(),
            Token::Int(v) => decimal_string(*v),
            Token::Assign => string_of("="),
            Token::Plus => string_of("+"),
            Token::Minus => string_of("-"),
            Token::Bang => string_of("!"),
            Token::Asterisk => string_of("*"),
            Token::Slash => string_of("/"),
            Token::LessThan => string_of("<"),
            Token::GreaterThan => string_of(">"),
            Token::Eq => string_of("=="),
            Token::NotEq => string_of("!="),
            Token::Comma => string_of(","),
            Token::Semicolon => string_of(";"),
            Token::Lparen => string_of("("),
            Token::Rparen => string_of(")"),
            Token::Lbrace => string_of("{"),
            Token::Rbrace => string_of("}"),
            Token::Function => string_of("fn"),
            Token::Let => string_of("let"),
            Token::True => string_of("true"),
            Token::False => string_of("false"),
            Token::If => string_of("if"),
            Token::Else => string_of("else"),
            Token::Return => string_of("return"),
        }
    }

    /// A copy of the token.
    pub fn duplicate(&self) -> (r: Token)
        ensures
            r == *self,
    {
        match self {
            Token::Illegal => Token::Illegal,
            Token::Eof => Token::Eof,
            Token::Ident(s) => Token::Ident(s.clone()),
            Token::Int(v) => Token::Int(*v),
            Token::Assign => Token::Assign,
            Token::Plus => Token::Plus,
            Token::Minus => Token::Minus,
            Token::Bang => Token::Bang,
            Token::Asterisk => Token::Asterisk,
            Token::Slash => Token::Slash,
            Token::LessThan => Token::LessThan,
            Token::GreaterThan => Token::GreaterThan,
            Token::Eq => Token::Eq,
            Token::NotEq => Token::NotEq,
            Token::Comma => Token::Comma,
            Token::Semicolon => Token::Semicolon,
            Token::Lparen => Token::Lparen,
            Token::Rparen => Token::Rparen,
            Token::Lbrace => Token::Lbrace,
            Token::Rbrace => Token::Rbrace,
            Token::Function => Token::Function,
            Token::Let => Token::Let,
            Token::True => Token::True,
            Token::False => Token::False,
            Token::If => Token::If,
            Token::Else => Token::Else,
            Token::Return => Token::Return,
        }
    }
}

/// The token for a word read from the source: a keyword's token, or `Ident`.
pub fn lookup_ident(ident: &str) -> (r: Token)
    ensures
        r@ == word_token(ident@),
{
    if same_text(ident, "fn") {
        return Token::Function;
    }
    if same_text(ident, "let") {
        return Token::Let;
    }
    if same_text(ident, "true") {
        return Token::True;
    }
    if same_text(ident, "false") {
        return Token::False;
    }
    if same_text(ident, "if") {
        return Token::If;
    }
    if same_text(ident, "else") {
        return Token::Else;
    }
    if same_text(ident, "return") {
        return Token::Return;
    }
    Token::Ident(string_of(ident))
}

} // verus!
