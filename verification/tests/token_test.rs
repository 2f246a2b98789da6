use shank_rust::lexer::Lexer;
use shank_rust::{Token, TokenType};

#[test]
fn token_type_is_kept() {
    assert_eq!(Token::new(TokenType::COMMA, 7).token_type(), TokenType::COMMA);
    assert_eq!(Token::new_with_value(TokenType::NUMBER, "12", 7).token_type(), TokenType::NUMBER);
}

#[test]
fn tokens_differ_by_kind_text_and_line() {
    let token = Token::new_with_value(TokenType::IDENTIFIER, "x", 1);
    assert_eq!(token, Token::new_with_value(TokenType::IDENTIFIER, "x", 1));
    assert_eq!(token.clone(), token);
    assert_ne!(token, Token::new_with_value(TokenType::IDENTIFIER, "y", 1));
    assert_ne!(token, Token::new_with_value(TokenType::IDENTIFIER, "x", 2));
    assert_ne!(token, Token::new_with_value(TokenType::NUMBER, "x", 1));
    assert_ne!(token, Token::new(TokenType::IDENTIFIER, 1));
}

#[test]
fn kind_names() {
    assert_eq!(TokenType::INDENT.name(), "INDENT");
    assert_eq!(TokenType::ENDOFLINE.name(), "ENDOFLINE");
    assert_eq!(TokenType::REPEAT.name(), "REPEAT");
    assert_eq!(TokenType::GREATERTHANOREQUAL.name(), "GREATERTHANOREQUAL");
    assert_eq!(TokenType::LEFTSQUAREBRACKET.name(), "LEFTSQUAREBRACKET");
    assert_eq!(TokenType::RIGHTSQUAREBRACKET.name(), "RIGHTSQUAREBRACKET");
}

#[test]
fn a_token_without_text_shows_its_name() {
    assert_eq!(Token::new(TokenType::ENDOFLINE, 1).to_string(), "ENDOFLINE");
    assert_eq!(Token::new(TokenType::INDENT, 1).to_string(), "INDENT");
    assert_eq!(Token::new(TokenType::NOTEQUAL, 1).to_string(), "NOTEQUAL");
    assert_eq!(Token::new(TokenType::IDENTIFIER, 1).to_string(), "IDENTIFIER");
}

#[test]
fn a_keyword_shows_its_name_alone() {
    assert_eq!(Token::new_with_value(TokenType::WHILE, "while", 1).to_string(), "WHILE");
    assert_eq!(Token::new_with_value(TokenType::REPEAT, "for", 1).to_string(), "REPEAT");
}

#[test]
fn a_token_with_text_shows_it_in_parentheses() {
    assert_eq!(Token::new_with_value(TokenType::IDENTIFIER, "count", 1).to_string(), "IDENTIFIER(count)");
    assert_eq!(Token::new_with_value(TokenType::NUMBER, "3.25", 1).to_string(), "NUMBER(3.25)");
    assert_eq!(Token::new_with_value(TokenType::NUMBER, "", 1).to_string(), "NUMBER()");
}

#[test]
fn literals_are_shown_in_quotes() {
    assert_eq!(
        Token::new_with_value(TokenType::STRINGLITERAL, "hi there", 1).to_string(),
        "STRINGLITERAL(\"hi there\")"
    );
    assert_eq!(
        Token::new_with_value(TokenType::CHARACTERLITERAL, "c", 1).to_string(),
        "CHARACTERLITERAL('c')"
    );
}

#[test]
fn dump_of_a_scan() {
    let lexer = Lexer::lex("x := \"a b\"\n\tif 'c' <> 1.5 then\n\n").unwrap();
    assert_eq!(
        lexer.dump(),
        "IDENTIFIER(x) ASSIGN STRINGLITERAL(\"a b\") ENDOFLINE\n\
         INDENT IF CHARACTERLITERAL('c') NOTEQUAL NUMBER(1.5) THEN ENDOFLINE\n\
         ENDOFLINE\n"
    );
    assert_eq!(Lexer::lex("").unwrap().dump(), "");
}

#[test]
fn tokens_are_a_copy() {
    let lexer = Lexer::lex("a").unwrap();
    let mut first = lexer.tokens();
    first.clear();
    assert_eq!(
        lexer.tokens(),
        vec![Token::new_with_value(TokenType::IDENTIFIER, "a", 1), Token::new(TokenType::ENDOFLINE, 1)]
    );
}

#[test]
fn lex_line_adds_to_the_session() {
    let mut lexer = Lexer::lex("a\n\tb").unwrap();
    assert!(lexer.lex_line("c {open").is_ok());
    assert!(lexer.lex_line("still } ").is_ok());
    assert!(lexer.lex_line("\t\td").is_ok());
    assert_eq!(
        lexer.tokens(),
        vec![
            Token::new_with_value(TokenType::IDENTIFIER, "a", 1),
            Token::new(TokenType::ENDOFLINE, 1),
            Token::new(TokenType::INDENT, 2),
            Token::new_with_value(TokenType::IDENTIFIER, "b", 2),
            Token::new(TokenType::ENDOFLINE, 2),
            Token::new(TokenType::DEDENT, 2),
            Token::new_with_value(TokenType::IDENTIFIER, "c", 2),
            Token::new(TokenType::ENDOFLINE, 2),
            Token::new(TokenType::ENDOFLINE, 2),
            Token::new(TokenType::INDENT, 2),
            Token::new(TokenType::INDENT, 2),
            Token::new_with_value(TokenType::IDENTIFIER, "d", 2),
            Token::new(TokenType::ENDOFLINE, 2),
        ]
    );
}

#[test]
fn lex_line_keeps_the_tokens_before_a_fault() {
    let mut lexer = Lexer::lex("").unwrap();
    let error = lexer.lex_line("    ab $ cd").unwrap_err();
    assert_eq!(error.msg, "Unknown char '$'");
    assert_eq!(error.line_num, 0);
    assert_eq!(
        lexer.tokens(),
        vec![Token::new(TokenType::INDENT, 0), Token::new_with_value(TokenType::IDENTIFIER, "ab", 0)]
    );
}

#[test]
fn lex_line_takes_a_line_break_as_whitespace() {
    let mut lexer = Lexer::lex("").unwrap();
    assert!(lexer.lex_line("a\nb\r").is_ok());
    assert_eq!(
        lexer.tokens(),
        vec![
            Token::new_with_value(TokenType::IDENTIFIER, "a", 0),
            Token::new_with_value(TokenType::IDENTIFIER, "b", 0),
            Token::new(TokenType::ENDOFLINE, 0),
        ]
    );
}
