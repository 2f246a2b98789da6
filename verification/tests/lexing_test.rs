use shank_rust::lexer::Lexer;
use shank_rust::{Token, TokenType};

fn compare_tokens(left: Vec<Token>, right: Vec<Token>) {
    for (lt, rt) in left.iter().zip(right.iter()) {
        assert_eq!(lt, rt);
    }
}

#[test]
fn character_fine1() {
    let lex_str = "variables x = 1";
    let tokens = vec![
        Token::new(TokenType::VARIABLES, 1),
        Token::new_with_value(TokenType::IDENTIFIER, "x", 1),
        Token::new(TokenType::EQUALS, 1),
        Token::new_with_value(TokenType::NUMBER, "1", 1),
    ];

    let lexer = Lexer::lex(lex_str).unwrap();
    compare_tokens(lexer.tokens(), tokens);
}

#[test]
fn character_fine2() {
    let lex_str = ">< > <>";
    let tokens = vec![
        Token::new(TokenType::GREATERTHAN, 1),
        Token::new(TokenType::LESSTHAN, 1),
        Token::new(TokenType::GREATERTHAN, 1),
        Token::new(TokenType::NOTEQUAL, 1),
    ];

    let lexer = Lexer::lex(lex_str).unwrap();
    compare_tokens(lexer.tokens(), tokens);
}

// Indenting
#[test]
fn indent_fine1() {
    let lex_str = "    hello\n   hi";
    let tokens = vec![
        Token::new(TokenType::INDENT, 1),
        Token::new_with_value(TokenType::IDENTIFIER, "hello", 1),
        Token::new(TokenType::ENDOFLINE, 1),
        Token::new(TokenType::DEDENT, 2),
        Token::new_with_value(TokenType::IDENTIFIER, "hi", 2),
    ];

    let lexer = Lexer::lex(lex_str).unwrap();
    compare_tokens(lexer.tokens(), tokens);
}

#[test]
fn comment_fine1() {
    let lex_str = "{This is a comment}\nhi";
    let tokens = vec![
        Token::new(TokenType::ENDOFLINE, 1),
        Token::new_with_value(TokenType::IDENTIFIER, "hi", 2),
    ];

    let lexer = Lexer::lex(lex_str).unwrap();
    compare_tokens(lexer.tokens(), tokens);
}

#[test]
fn comment_fine2() {
    let lex_str = "{This is another \n comment on a new line}\nhi";
    let tokens = vec![
        Token::new(TokenType::ENDOFLINE, 1),
        Token::new(TokenType::ENDOFLINE, 2),
        Token::new_with_value(TokenType::IDENTIFIER, "hi", 3),
    ];

    let lexer = Lexer::lex(lex_str).unwrap();
    compare_tokens(lexer.tokens(), tokens);
}

#[test]
#[should_panic]
fn comment_bad1() {
    let lex_str = "{This comment should fail}hi";
    Lexer::lex(lex_str).unwrap();
}

#[test]
#[should_panic]
fn comment_bad2() {
    let lex_str = "{This comment should fail\n}hi";
    Lexer::lex(lex_str).unwrap();
}
