use monkey_lexer::lexer::Lexer;
use monkey_lexer::token::{Keyword, Literal, Spec, Token, TokenType};

fn check(code: &str, expected: &[(TokenType, Option<&str>, usize)]) {
    let lexer = Lexer::new();
    let mut it = lexer.tokenize(code);
    let mut produced: Vec<Token> = Vec::new();
    while let Some(token) = it.next_token() {
        produced.push(token);
    }
    assert_eq!(produced.len(), expected.len());
    for (token, (token_type, literal, line)) in produced.into_iter().zip(expected.iter()) {
        assert_eq!(*token_type, token.token_type);
        assert_eq!(literal.map(|s| s.to_owned()), token.literal);
        assert_eq!(*line, token.line);
    }
}

#[test]
fn test_illegal() {
    let code = "-66 бррр";
    let expected = [
        (TokenType::Spec(Spec::Minus), None, 0),
        (TokenType::Literal(Literal::Int), Some("66"), 0),
        (TokenType::Illegal, None, 0),
    ];
    check(code, &expected);
}

#[test]
fn test1() {
    let code = "=+(){},;";
    let expected = [
        (TokenType::Spec(Spec::Assign), None, 0),
        (TokenType::Spec(Spec::Plus), None, 0),
        (TokenType::Spec(Spec::Lparen), None, 0),
        (TokenType::Spec(Spec::Rparen), None, 0),
        (TokenType::Spec(Spec::Lbrace), None, 0),
        (TokenType::Spec(Spec::Rbrace), None, 0),
        (TokenType::Spec(Spec::Comma), None, 0),
        (TokenType::Spec(Spec::Semicolon), None, 0),
    ];
    check(code, &expected);
}

#[test]
fn test2() {
    let code = "let x = 5 + 5;";
    let expected = [
        (TokenType::Keyword(Keyword::Let), None, 0),
        (TokenType::Literal(Literal::Ident), Some("x"), 0),
        (TokenType::Spec(Spec::Assign), None, 0),
        (TokenType::Literal(Literal::Int), Some("5"), 0),
        (TokenType::Spec(Spec::Plus), None, 0),
        (TokenType::Literal(Literal::Int), Some("5"), 0),
        (TokenType::Spec(Spec::Semicolon), None, 0),
    ];
    check(code, &expected);
}

#[test]
fn test3() {
    let code = "let five = 5; \n\
            let ten = 10; \n\
            \n\
            let add = fn(x, y) { \n\
                x + y; \n\
            }; \n\
            let result = add(five, ten);";
    let expected = [
        (TokenType::Keyword(Keyword::Let), None, 0),
        (TokenType::Literal(Literal::Ident), Some("five"), 0),
        (TokenType::Spec(Spec::Assign), None, 0),
        (TokenType::Literal(Literal::Int), Some("5"), 0),
        (TokenType::Spec(Spec::Semicolon), None, 0),
        (TokenType::Keyword(Keyword::Let), None, 1),
        (TokenType::Literal(Literal::Ident), Some("ten"), 1),
        (TokenType::Spec(Spec::Assign), None, 1),
        (TokenType::Literal(Literal::Int), Some("10"), 1),
        (TokenType::Spec(Spec::Semicolon), None, 1),
        (TokenType::Keyword(Keyword::Let), None, 3),
        (TokenType::Literal(Literal::Ident), Some("add"), 3),
        (TokenType::Spec(Spec::Assign), None, 3),
        (TokenType::Keyword(Keyword::Function), None, 3),
        (TokenType::Spec(Spec::Lparen), None, 3),
        (TokenType::Literal(Literal::Ident), Some("x"), 3),
        (TokenType::Spec(Spec::Comma), None, 3),
        (TokenType::Literal(Literal::Ident), Some("y"), 3),
        (TokenType::Spec(Spec::Rparen), None, 3),
        (TokenType::Spec(Spec::Lbrace), None, 3),
        (TokenType::Literal(Literal::Ident), Some("x"), 4),
        (TokenType::Spec(Spec::Plus), None, 4),
        (TokenType::Literal(Literal::Ident), Some("y"), 4),
        (TokenType::Spec(Spec::Semicolon), None, 4),
        (TokenType::Spec(Spec::Rbrace), None, 5),
        (TokenType::Spec(Spec::Semicolon), None, 5),
        (TokenType::Keyword(Keyword::Let), None, 6),
        (TokenType::Literal(Literal::Ident), Some("result"), 6),
        (TokenType::Spec(Spec::Assign), None, 6),
        (TokenType::Literal(Literal::Ident), Some("add"), 6),
        (TokenType::Spec(Spec::Lparen), None, 6),
        (TokenType::Literal(Literal::Ident), Some("five"), 6),
        (TokenType::Spec(Spec::Comma), None, 6),
        (TokenType::Literal(Literal::Ident), Some("ten"), 6),
        (TokenType::Spec(Spec::Rparen), None, 6),
        (TokenType::Spec(Spec::Semicolon), None, 6),
    ];
    check(code, &expected);
}

#[test]
fn test4() {
    let code = "let five = 5; \n\
            let ten = 10; \n\
            let add = fn(x, y) { \n\
                x + y; \n\
            }; \n\
            let result = add(five, ten); \n\
            !-/*5; \n\
            5 < 10 > 5; \n\
            if (5 == 10) { \n\
                return true; \n\
            } else { \n\
                return false; \n\
            }";
    let expected = [
        (TokenType::Keyword(Keyword::Let), None, 0),
        (TokenType::Literal(Literal::Ident), Some("five"), 0),
        (TokenType::Spec(Spec::Assign), None, 0),
        (TokenType::Literal(Literal::Int), Some("5"), 0),
        (TokenType::Spec(Spec::Semicolon), None, 0),
        (TokenType::Keyword(Keyword::Let), None, 1),
        (TokenType::Literal(Literal::Ident), Some("ten"), 1),
        (TokenType::Spec(Spec::Assign), None, 1),
        (TokenType::Literal(Literal::Int), Some("10"), 1),
        (TokenType::Spec(Spec::Semicolon), None, 1),
        (TokenType::Keyword(Keyword::Let), None, 2),
        (TokenType::Literal(Literal::Ident), Some("add"), 2),
        (TokenType::Spec(Spec::Assign), None, 2),
        (TokenType::Keyword(Keyword::Function), None, 2),
        (TokenType::Spec(Spec::Lparen), None, 2),
        (TokenType::Literal(Literal::Ident), Some("x"), 2),
        (TokenType::Spec(Spec::Comma), None, 2),
        (TokenType::Literal(Literal::Ident), Some("y"), 2),
        (TokenType::Spec(Spec::Rparen), None, 2),
        (TokenType::Spec(Spec::Lbrace), None, 2),
        (TokenType::Literal(Literal::Ident), Some("x"), 3),
        (TokenType::Spec(Spec::Plus), None, 3),
        (TokenType::Literal(Literal::Ident), Some("y"), 3),
        (TokenType::Spec(Spec::Semicolon), None, 3),
        (TokenType::Spec(Spec::Rbrace), None, 4),
        (TokenType::Spec(Spec::Semicolon), None, 4),
        (TokenType::Keyword(Keyword::Let), None, 5),
        (TokenType::Literal(Literal::Ident), Some("result"), 5),
        (TokenType::Spec(Spec::Assign), None, 5),
        (TokenType::Literal(Literal::Ident), Some("add"), 5),
        (TokenType::Spec(Spec::Lparen), None, 5),
        (TokenType::Literal(Literal::Ident), Some("five"), 5),
        (TokenType::Spec(Spec::Comma), None, 5),
        (TokenType::Literal(Literal::Ident), Some("ten"), 5),
        (TokenType::Spec(Spec::Rparen), None, 5),
        (TokenType::Spec(Spec::Semicolon), None, 5),
        (TokenType::Spec(Spec::Bang), None, 6),
        (TokenType::Spec(Spec::Minus), None, 6),
        (TokenType::Spec(Spec::Slash), None, 6),
        (TokenType::Spec(Spec::Asterisk), None, 6),
        (TokenType::Literal(Literal::Int), Some("5"), 6),
        (TokenType::Spec(Spec::Semicolon), None, 6),
        (TokenType::Literal(Literal::Int), Some("5"), 7),
        (TokenType::Spec(Spec::Lt), None, 7),
        (TokenType::Literal(Literal::Int), Some("10"), 7),
        (TokenType::Spec(Spec::Gt), None, 7),
        (TokenType::Literal(Literal::Int), Some("5"), 7),
        (TokenType::Spec(Spec::Semicolon), None, 7),
        (TokenType::Keyword(Keyword::If), None, 8),
        (TokenType::Spec(Spec::Lparen), None, 8),
        (TokenType::Literal(Literal::Int), Some("5"), 8),
        (TokenType::Spec(Spec::Equal), None, 8),
        (TokenType::Literal(Literal::Int), Some("10"), 8),
        (TokenType::Spec(Spec::Rparen), None, 8),
        (TokenType::Spec(Spec::Lbrace), None, 8),
        (TokenType::Keyword(Keyword::Return), None, 9),
        (TokenType::Keyword(Keyword::True), None, 9),
        (TokenType::Spec(Spec::Semicolon), None, 9),
        (TokenType::Spec(Spec::Rbrace), None, 10),
        (TokenType::Keyword(Keyword::Else), None, 10),
        (TokenType::Spec(Spec::Lbrace), None, 10),
        (TokenType::Keyword(Keyword::Return), None, 11),
        (TokenType::Keyword(Keyword::False), None, 11),
        (TokenType::Spec(Spec::Semicolon), None, 11),
        (TokenType::Spec(Spec::Rbrace), None, 12),
    ];
    check(code, &expected);
}
