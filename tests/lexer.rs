use roadrunner::lexer::Lexer;
use roadrunner::token::{lookup_ident, Token};

fn lex_all(input: &str) -> Vec<Token> {
    let mut lexer = Lexer::new(input);
    let mut out = Vec::new();
    loop {
        let t = lexer.next_token();
        let end = t == Token::Eof;
        out.push(t);
        if end {
            break;
        }
    }
    out
}

#[test]
fn test_next_token_simple() {
    let mut lexer = Lexer::new("=+(){},;");
    let expected = vec![
        Token::Assign,
        Token::Plus,
        Token::Lparen,
        Token::Rparen,
        Token::Lbrace,
        Token::Rbrace,
        Token::Comma,
        Token::Semicolon,
        Token::Eof,
    ];
    for e in expected {
        assert_eq!(lexer.next_token(), e);
    }
}

#[test]
fn test_next_token_semicolon() {
    let mut lexer = Lexer::new(";");
    assert_eq!(lexer.next_token(), Token::Semicolon);
    assert_eq!(lexer.next_token(), Token::Eof);
}

#[test]
fn test_next_token_equals() {
    let mut lexer = Lexer::new("==;");
    for e in vec![Token::Eq, Token::Semicolon, Token::Eof] {
        assert_eq!(lexer.next_token(), e);
    }
}

#[test]
fn test_next_token_not_equals() {
    let mut lexer = Lexer::new("!=;");
    for e in vec![Token::NotEq, Token::Semicolon, Token::Eof] {
        assert_eq!(lexer.next_token(), e);
    }
}

#[test]
fn test_next_token_double_char_tokens() {
    let mut lexer = Lexer::new("== !=;");
    for e in vec![Token::Eq, Token::NotEq, Token::Semicolon, Token::Eof] {
        assert_eq!(lexer.next_token(), e);
    }
}

fn ident(s: &str) -> Token {
    Token::Ident(s.to_string())
}

#[test]
fn test_next_token_statements() {
    let input = "
    let five = 5;
    let ten = 10;
    let add = fn(x,y) {
        x + y
    };
    let result = add(five,ten);
    ";
    let expected = vec![
        Token::Let,
        ident("five"),
        Token::Assign,
        Token::Int(5),
        Token::Semicolon,
        Token::Let,
        ident("ten"),
        Token::Assign,
        Token::Int(10),
        Token::Semicolon,
        Token::Let,
        ident("add"),
        Token::Assign,
        Token::Function,
        Token::Lparen,
        ident("x"),
        Token::Comma,
        ident("y"),
        Token::Rparen,
        Token::Lbrace,
        ident("x"),
        Token::Plus,
        ident("y"),
        Token::Rbrace,
        Token::Semicolon,
        Token::Let,
        ident("result"),
        Token::Assign,
        ident("add"),
        Token::Lparen,
        ident("five"),
        Token::Comma,
        ident("ten"),
        Token::Rparen,
        Token::Semicolon,
        Token::Eof,
    ];
    assert_eq!(lex_all(input), expected);
}

#[test]
fn test_next_token_statements_and_operators() {
    let input = "!-/*5;
    5 < 10 > 5;
    if (5 < 10) {
        return true;
    } else {
        return false;
    }
";
    let expected = vec![
        Token::Bang,
        Token::Minus,
        Token::Slash,
        Token::Asterisk,
        Token::Int(5),
        Token::Semicolon,
        Token::Int(5),
        Token::LessThan,
        Token::Int(10),
        Token::GreaterThan,
        Token::Int(5),
        Token::Semicolon,
        Token::If,
        Token::Lparen,
        Token::Int(5),
        Token::LessThan,
        Token::Int(10),
        Token::Rparen,
        Token::Lbrace,
        Token::Return,
        Token::True,
        Token::Semicolon,
        Token::Rbrace,
        Token::Else,
        Token::Lbrace,
        Token::Return,
        Token::False,
        Token::Semicolon,
        Token::Rbrace,
        Token::Eof,
    ];
    assert_eq!(lex_all(input), expected);
}

#[test]
fn eof_repeats_past_the_end() {
    let mut lexer = Lexer::new("x");
    assert_eq!(lexer.next_token(), ident("x"));
    assert_eq!(lexer.next_token(), Token::Eof);
    assert_eq!(lexer.next_token(), Token::Eof);
    assert_eq!(lexer.next_token(), Token::Eof);
}

#[test]
fn empty_source_gives_eof() {
    assert_eq!(lex_all(""), vec![Token::Eof]);
    assert_eq!(lex_all(" \t\r\n "), vec![Token::Eof]);
}

#[test]
fn unknown_characters_are_illegal() {
    assert_eq!(lex_all("5 @ 3"), vec![Token::Int(5), Token::Illegal, Token::Int(3), Token::Eof]);
    assert_eq!(lex_all("#"), vec![Token::Illegal, Token::Eof]);
}

#[test]
fn integer_overflow_gives_zero() {
    assert_eq!(lex_all("9223372036854775807"), vec![Token::Int(i64::MAX), Token::Eof]);
    assert_eq!(lex_all("9223372036854775808"), vec![Token::Int(0), Token::Eof]);
    assert_eq!(lex_all("007"), vec![Token::Int(7), Token::Eof]);
}

#[test]
fn identifiers_take_letters_digits_and_underscores() {
    assert_eq!(lex_all("_a1 b_2c"), vec![ident("_a1"), ident("b_2c"), Token::Eof]);
    assert_eq!(lex_all("5abc"), vec![Token::Int(5), ident("abc"), Token::Eof]);
    assert_eq!(lex_all("héllo"), vec![ident("héllo"), Token::Eof]);
}

#[test]
fn keywords_are_looked_up() {
    assert_eq!(lookup_ident("fn"), Token::Function);
    assert_eq!(lookup_ident("let"), Token::Let);
    assert_eq!(lookup_ident("true"), Token::True);
    assert_eq!(lookup_ident("false"), Token::False);
    assert_eq!(lookup_ident("if"), Token::If);
    assert_eq!(lookup_ident("else"), Token::Else);
    assert_eq!(lookup_ident("return"), Token::Return);
    assert_eq!(lookup_ident("lets"), ident("lets"));
}

#[test]
fn token_literals() {
    assert_eq!(Token::Int(-42).to_literal(), "-42");
    assert_eq!(Token::Int(i64::MIN).to_literal(), "-9223372036854775808");
    assert_eq!(Token::Int(0).to_literal(), "0");
    assert_eq!(Token::Eq.to_literal(), "==");
    assert_eq!(Token::Illegal.to_literal(), "ILLEGAL");
    assert_eq!(Token::Eof.to_literal(), "EOF");
    assert_eq!(ident("abc").to_literal(), "abc");
}

#[test]
fn literals_rebuild_the_source_without_whitespace() {
    let input = "let add = fn(x, y) { x + y; };\n if (a != 10) { return !b; } else { 5 * 2 / 3 }";
    let tokens = lex_all(input);
    let joined: String = tokens
        .iter()
        .filter(|t| **t != Token::Eof)
        .map(|t| t.to_literal())
        .collect();
    let stripped: String = input.chars().filter(|c| !c.is_whitespace()).collect();
    assert_eq!(joined, stripped);
}
