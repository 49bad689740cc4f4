use monkey::lexer::{Lexer, ScanError, Token};

#[test]
fn test_next_token1() -> Result<(), ScanError> {
    let input = "(){},;+=";
    let mut lexer = Lexer::new(input.into());
    let tokens = vec![
        Token::LPAREN,
        Token::RPAREN,
        Token::LBRACE,
        Token::RBRACE,
        Token::COMMA,
        Token::SEMICOLON,
        Token::PLUS,
        Token::ASSIGN,
    ];
    for token in tokens {
        let nex_token = lexer.next_token()?;
        println!("expected: {:?}, recieved: {:?}", token, nex_token);
        assert_eq!(token, nex_token);
    }
    return Ok(());
}

#[test]
fn test_next_token2() -> Result<(), ScanError> {
    let input = r#"let five = 5;
        let ten = 10;
        let add = fn(x, y) {
            x + y;
        };
        let result = add(five, ten);
        !-/*5;
        5 < 10 > 5;
        if (5 < 10) {
            return true;
        } else {
            return false;
        }"#;
    let mut lexer = Lexer::new(input.into());
    let tokens = vec![
        Token::LET,
        Token::IDENT(String::from("five")),
        Token::ASSIGN,
        Token::INT(String::from("5")),
        Token::SEMICOLON,
        Token::LET,
        Token::IDENT(String::from("ten")),
        Token::ASSIGN,
        Token::INT(String::from("10")),
        Token::SEMICOLON,
        Token::LET,
        Token::IDENT(String::from("add")),
        Token::ASSIGN,
        Token::FUNCTION,
        Token::LPAREN,
        Token::IDENT(String::from("x")),
        Token::COMMA,
        Token::IDENT(String::from("y")),
        Token::RPAREN,
        Token::LBRACE,
        Token::IDENT(String::from("x")),
        Token::PLUS,
        Token::IDENT(String::from("y")),
        Token::SEMICOLON,
        Token::RBRACE,
        Token::SEMICOLON,
        Token::LET,
        Token::IDENT(String::from("result")),
        Token::ASSIGN,
        Token::IDENT(String::from("add")),
        Token::LPAREN,
        Token::IDENT(String::from("five")),
        Token::COMMA,
        Token::IDENT(String::from("ten")),
        Token::RPAREN,
        Token::SEMICOLON,
        Token::BANG,
        Token::MINUS,
        Token::SLASH,
        Token::ASTERISK,
        Token::INT(String::from("5")),
        Token::SEMICOLON,
        Token::INT(String::from("5")),
        Token::LT,
        Token::INT(String::from("10")),
        Token::GT,
        Token::INT(String::from("5")),
        Token::SEMICOLON,
        Token::IF,
        Token::LPAREN,
        Token::INT(String::from("5")),
        Token::LT,
        Token::INT(String::from("10")),
        Token::RPAREN,
        Token::LBRACE,
        Token::RETURN,
        Token::TRUE,
        Token::SEMICOLON,
        Token::RBRACE,
        Token::ELSE,
        Token::LBRACE,
        Token::RETURN,
        Token::FALSE,
        Token::SEMICOLON,
        Token::RBRACE,
    ];

    for token in tokens {
        let next_token = lexer.next_token()?;
        println!("expected: {:?}, recieved: {:?}", token, next_token);
        assert_eq!(token, next_token);
    }
    return Ok(());
}

#[test]
fn test_next_token3() -> Result<(), ScanError> {
    let input = r#"
        !-/*5;
        5 < 10 > 5;
        if (5 < 10) {
            return true;
        } else {
            return false;
        }"#;
    let mut lexer = Lexer::new(input.into());
    let tokens = vec![
        Token::BANG,
        Token::MINUS,
        Token::SLASH,
        Token::ASTERISK,
        Token::INT(String::from("5")),
        Token::SEMICOLON,
        Token::INT(String::from("5")),
        Token::LT,
        Token::INT(String::from("10")),
        Token::GT,
        Token::INT(String::from("5")),
        Token::SEMICOLON,
        Token::IF,
        Token::LPAREN,
        Token::INT(String::from("5")),
        Token::LT,
        Token::INT(String::from("10")),
        Token::RPAREN,
        Token::LBRACE,
        Token::RETURN,
        Token::TRUE,
        Token::SEMICOLON,
        Token::RBRACE,
        Token::ELSE,
        Token::LBRACE,
        Token::RETURN,
        Token::FALSE,
        Token::SEMICOLON,
        Token::RBRACE,
    ];

    for token in tokens {
        let next_token = lexer.next_token()?;
        println!("expected: {:?}, recieved: {:?}", token, next_token);
        assert_eq!(token, next_token);
    }
    return Ok(());
}

#[test]
fn test_next_token4() -> Result<(), ScanError> {
    let input = r#"
        10 == 10;
        10 != 9;
        "#;
    let mut lexer = Lexer::new(input.into());
    let tokens = vec![
        Token::INT(String::from("10")),
        Token::EQUAL,
        Token::INT(String::from("10")),
        Token::SEMICOLON,
        Token::INT(String::from("10")),
        Token::NOTEQUAL,
        Token::INT(String::from("9")),
        Token::SEMICOLON,
    ];

    for token in tokens {
        let next_token = lexer.next_token()?;
        println!("expected: {:?}, recieved: {:?}", token, next_token);
        assert_eq!(token, next_token);
    }
    return Ok(());
}


fn scan_all(input: &str) -> Vec<Result<Token, ScanError>> {
    let mut lexer = Lexer::new(input.to_string());
    let mut out = Vec::new();
    loop {
        let r = lexer.next_token();
        let done = r == Ok(Token::EOF);
        out.push(r);
        if done {
            return out;
        }
    }
}

fn ident(s: &str) -> Token {
    Token::IDENT(String::from(s))
}

fn integer(s: &str) -> Token {
    Token::INT(String::from(s))
}

#[test]
fn end_of_input_repeats() {
    let mut lexer = Lexer::new(String::from("x"));
    assert_eq!(lexer.next_token(), Ok(ident("x")));
    for _ in 0..5 {
        assert_eq!(lexer.next_token(), Ok(Token::EOF));
    }
}

#[test]
fn empty_and_blank_input() {
    assert_eq!(scan_all(""), vec![Ok(Token::EOF)]);
    assert_eq!(scan_all(" \t\r\n"), vec![Ok(Token::EOF)]);
}

#[test]
fn two_byte_operators() {
    assert_eq!(scan_all("=="), vec![Ok(Token::EQUAL), Ok(Token::EOF)]);
    assert_eq!(scan_all("!="), vec![Ok(Token::NOTEQUAL), Ok(Token::EOF)]);
    assert_eq!(scan_all("= ="), vec![Ok(Token::ASSIGN), Ok(Token::ASSIGN), Ok(Token::EOF)]);
    assert_eq!(scan_all("!"), vec![Ok(Token::BANG), Ok(Token::EOF)]);
    assert_eq!(scan_all("==="), vec![Ok(Token::EQUAL), Ok(Token::ASSIGN), Ok(Token::EOF)]);
}

#[test]
fn keyword_boundary() {
    assert_eq!(scan_all("fn"), vec![Ok(Token::FUNCTION), Ok(Token::EOF)]);
    assert_eq!(scan_all("fna"), vec![Ok(ident("fna")), Ok(Token::EOF)]);
    assert_eq!(scan_all("Fn"), vec![Ok(ident("Fn")), Ok(Token::EOF)]);
    assert_eq!(scan_all("iff"), vec![Ok(ident("iff")), Ok(Token::EOF)]);
    assert_eq!(scan_all("_under_score"), vec![Ok(ident("_under_score")), Ok(Token::EOF)]);
}

#[test]
fn digit_then_letter() {
    assert_eq!(scan_all("5x"), vec![Ok(integer("5")), Ok(ident("x")), Ok(Token::EOF)]);
    assert_eq!(scan_all("a1"), vec![Ok(ident("a")), Ok(integer("1")), Ok(Token::EOF)]);
}

#[test]
fn let_statement() {
    assert_eq!(
        scan_all("let five = 5;"),
        vec![
            Ok(Token::LET),
            Ok(ident("five")),
            Ok(Token::ASSIGN),
            Ok(integer("5")),
            Ok(Token::SEMICOLON),
            Ok(Token::EOF),
        ]
    );
}

#[test]
fn if_else_with_braces() {
    let expected: Vec<Result<Token, ScanError>> = vec![
        Token::IF,
        Token::LPAREN,
        integer("5"),
        Token::LT,
        integer("10"),
        Token::RPAREN,
        Token::LBRACE,
        Token::RETURN,
        Token::TRUE,
        Token::SEMICOLON,
        Token::RBRACE,
        Token::ELSE,
        Token::LBRACE,
        Token::RETURN,
        Token::FALSE,
        Token::SEMICOLON,
        Token::RBRACE,
        Token::EOF,
    ]
    .into_iter()
    .map(Ok)
    .collect();
    assert_eq!(scan_all("if (5 < 10) { return true; } else { return false; }"), expected);
}

#[test]
fn whitespace_between_tokens_is_ignored() {
    let expected = vec![Ok(integer("5")), Ok(Token::PLUS), Ok(integer("5")), Ok(Token::EOF)];
    assert_eq!(scan_all("5+5"), expected);
    assert_eq!(scan_all("5 + 5"), expected);
    assert_eq!(scan_all("\t5\n+\r\n5  "), expected);
}

#[test]
fn long_literal_is_kept_as_text() {
    assert_eq!(
        scan_all("123456789012345678901234567890"),
        vec![Ok(integer("123456789012345678901234567890")), Ok(Token::EOF)]
    );
}

#[test]
fn unknown_byte_is_reported_and_skipped() {
    assert_eq!(
        scan_all("a @ b"),
        vec![
            Ok(ident("a")),
            Err(ScanError { byte: b'@', offset: 2 }),
            Ok(ident("b")),
            Ok(Token::EOF),
        ]
    );
}

#[test]
fn non_ascii_bytes_are_reported_one_by_one() {
    // 'é' is two bytes in UTF-8.
    assert_eq!(
        scan_all("é1"),
        vec![
            Err(ScanError { byte: 0xC3, offset: 0 }),
            Err(ScanError { byte: 0xA9, offset: 1 }),
            Ok(integer("1")),
            Ok(Token::EOF),
        ]
    );
}

#[test]
fn nul_byte_is_not_end_of_input() {
    assert_eq!(
        scan_all("x\0y"),
        vec![
            Ok(ident("x")),
            Err(ScanError { byte: 0, offset: 1 }),
            Ok(ident("y")),
            Ok(Token::EOF),
        ]
    );
}
