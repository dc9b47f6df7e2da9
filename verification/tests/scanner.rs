use monkey_lang_rs::lexer::Lexer;
use monkey_lang_rs::token::Token;

#[test]
fn next_token() {
    let input = "let five = 5;
        let ten = 10;
           let add = fn(x, y) {
             x + y;
        };
           let result = add(five, ten);";
    let tests = [
        Token::Let,
        Token::Ident("five".to_string()),
        Token::Assign,
        Token::Int(5),
        Token::Semicolon,
        Token::Let,
        Token::Ident("ten".to_string()),
        Token::Assign,
        Token::Int(10),
        Token::Semicolon,
        Token::Let,
        Token::Ident("add".to_string()),
        Token::Assign,
        Token::Function,
        Token::LParen,
        Token::Ident("x".to_string()),
        Token::Comma,
        Token::Ident("y".to_string()),
        Token::RParen,
        Token::LBrace,
        Token::Ident("x".to_string()),
        Token::Plus,
        Token::Ident("y".to_string()),
        Token::Semicolon,
        Token::RBrace,
        Token::Semicolon,
        Token::Let,
        Token::Ident("result".to_string()),
        Token::Assign,
        Token::Ident("add".to_string()),
        Token::LParen,
        Token::Ident("five".to_string()),
        Token::Comma,
        Token::Ident("ten".to_string()),
        Token::RParen,
        Token::Semicolon,
        Token::EOF,
    ];
    let mut lexer = Lexer::new(input);
    for token in tests {
        let lex_token = lexer.next_token().unwrap();
        match lex_token {
            Token::Ident(ref x) => {
                assert!(
                    token == lex_token,
                    "Expected token: {:?}, Got: {:?} with val {}",
                    &token,
                    &lex_token,
                    x
                );
            }
            _ => {
                assert!(
                    token == lex_token,
                    "Expected token: {:?}, Got: {:?}",
                    &token,
                    &lex_token
                );
            }
        }
    }
}

#[test]
fn test_scanner_idempotent_at_end() {
    let mut lexer = Lexer::new("x + 1");
    let mut found_end = false;
    for _ in 0..10 {
        if lexer.next_token().unwrap() == Token::EOF {
            found_end = true;
            break;
        }
    }
    assert!(found_end);
    for _ in 0..5 {
        assert_eq!(lexer.next_token().unwrap(), Token::EOF);
    }
}

#[test]
fn test_two_character_operators() {
    let mut lexer = Lexer::new("== != = !");
    assert_eq!(lexer.next_token().unwrap(), Token::Eq);
    assert_eq!(lexer.next_token().unwrap(), Token::NotEq);
    assert_eq!(lexer.next_token().unwrap(), Token::Assign);
    assert_eq!(lexer.next_token().unwrap(), Token::Bang);
    assert_eq!(lexer.next_token().unwrap(), Token::EOF);
}

#[test]
fn test_illegal_byte() {
    let mut lexer = Lexer::new("@ 1");
    assert_eq!(lexer.next_token().unwrap(), Token::Illegal);
    assert_eq!(lexer.next_token().unwrap(), Token::Int(1));
    assert_eq!(lexer.next_token().unwrap(), Token::EOF);
}

#[test]
fn test_integer_literal_overflow_is_fatal() {
    let mut lexer = Lexer::new("99999999999");
    assert!(lexer.next_token().is_err());
}

#[test]
fn test_largest_integer_literal() {
    let mut lexer = Lexer::new("2147483647");
    assert_eq!(lexer.next_token().unwrap(), Token::Int(2147483647));
    let mut lexer2 = Lexer::new("2147483648");
    assert!(lexer2.next_token().is_err());
}
