use monkey::lexer::{LexError, Lexer, Token};

#[test]
fn lexer_get_next_token() {
    let input = "=+(){},;";
    let mut lexer = Lexer::new(input);

    let tokens = vec![
        Token::Assign,
        Token::Plus,
        Token::Lparen,
        Token::Rparen,
        Token::LSquirly,
        Token::RSquirly,
        Token::Comma,
        Token::Semicolon,
    ];

    for token in tokens {
        assert_eq!(token, lexer.next_token().unwrap());
    }
}

#[test]
fn lexer_get_next_complete() {
    let input = r#"let five = 5;
        let ten = 10;

        let add = fn(x, y) {
            x + y;
        };

        let result = add(five, ten);
        !-/*5;
        5 < 10 > 5;

        if (5 < 10) {
            return true;
        } else {
            return false;
        }

        10 == 10;
        10 != 9;

        "foobar"
        "foo bar""#;

    let mut lexer = Lexer::new(input);
    let tokens = vec![
        Token::Let,
        Token::Ident(String::from("five")),
        Token::Assign,
        Token::Int(5),
        Token::Semicolon,
        Token::Let,
        Token::Ident(String::from("ten")),
        Token::Assign,
        Token::Int(10),
        Token::Semicolon,
        Token::Let,
        Token::Ident(String::from("add")),
        Token::Assign,
        Token::Function,
        Token::Lparen,
        Token::Ident(String::from("x")),
        Token::Comma,
        Token::Ident(String::from("y")),
        Token::Rparen,
        Token::LSquirly,
        Token::Ident(String::from("x")),
        Token::Plus,
        Token::Ident(String::from("y")),
        Token::Semicolon,
        Token::RSquirly,
        Token::Semicolon,
        Token::Let,
        Token::Ident(String::from("result")),
        Token::Assign,
        Token::Ident(String::from("add")),
        Token::Lparen,
        Token::Ident(String::from("five")),
        Token::Comma,
        Token::Ident(String::from("ten")),
        Token::Rparen,
        Token::Semicolon,
        Token::Bang,
        Token::Minus,
        Token::Slash,
        Token::Asterisk,
        Token::Int(5),
        Token::Semicolon,
        Token::Int(5),
        Token::Lt,
        Token::Int(10),
        Token::Gt,
        Token::Int(5),
        Token::Semicolon,
        Token::If,
        Token::Lparen,
        Token::Int(5),
        Token::Lt,
        Token::Int(10),
        Token::Rparen,
        Token::LSquirly,
        Token::Return,
        Token::Bool(true),
        Token::Semicolon,
        Token::RSquirly,
        Token::Else,
        Token::LSquirly,
        Token::Return,
        Token::Bool(false),
        Token::Semicolon,
        Token::RSquirly,
        Token::Int(10),
        Token::Equal,
        Token::Int(10),
        Token::Semicolon,
        Token::Int(10),
        Token::NotEqual,
        Token::Int(9),
        Token::Semicolon,
        Token::Str("foobar".into()),
        Token::Str("foo bar".into()),
        Token::Eof,
    ];

    for token in tokens {
        let next_token = lexer.next_token().unwrap();
        println!("expected: {:?}, received: {:?}", token, next_token);
        assert_eq!(token, next_token);
    }
}

#[test]
fn lexer_eof_repeats() {
    let mut lexer = Lexer::new("5");
    assert_eq!(lexer.next_token().unwrap(), Token::Int(5));
    assert_eq!(lexer.next_token().unwrap(), Token::Eof);
    assert_eq!(lexer.next_token().unwrap(), Token::Eof);
}

#[test]
fn lexer_illegal_character() {
    let mut lexer = Lexer::new("@");
    assert_eq!(lexer.next_token(), Err(LexError::IllegalCharacter(b'@')));
    assert_eq!(
        LexError::IllegalCharacter(b'@').message(),
        "No program should contain this token: @"
    );
}

#[test]
fn lexer_unterminated_string() {
    let mut lexer = Lexer::new("\"abc");
    assert_eq!(lexer.next_token(), Err(LexError::UnterminatedString));
}

#[test]
fn lexer_integer_overflow() {
    let mut lexer = Lexer::new("99999999999999999999");
    assert_eq!(lexer.next_token(), Err(LexError::IntegerOverflow));
    let mut ok = Lexer::new("9223372036854775807");
    assert_eq!(ok.next_token().unwrap(), Token::Int(i64::MAX));
}
