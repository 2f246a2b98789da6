use shank_rust::lexer::{LexError, Lexer};
use shank_rust::text::split_lines;
use shank_rust::{keyword_check, Token, TokenType};

fn lexed(text: &str) -> Vec<Token> {
    Lexer::lex(text).unwrap().tokens()
}

fn fault(text: &str) -> LexError {
    match Lexer::lex(text) {
        Ok(lexer) => panic!("scanned to {:?}", lexer.tokens()),
        Err(error) => error,
    }
}

fn word(kind: TokenType, text: &str, line: u32) -> Token {
    Token::new_with_value(kind, text, line)
}

fn mark(kind: TokenType, line: u32) -> Token {
    Token::new(kind, line)
}

#[test]
fn empty_text_has_no_tokens() {
    assert_eq!(lexed(""), vec![]);
}

#[test]
fn one_end_of_line_per_line() {
    let tokens = lexed("a\n\n   \n{c}\nb\n");
    let ends: Vec<Token> =
        tokens.into_iter().filter(|t| t.token_type() == TokenType::ENDOFLINE).collect();
    assert_eq!(
        ends,
        vec![
            mark(TokenType::ENDOFLINE, 1),
            mark(TokenType::ENDOFLINE, 2),
            mark(TokenType::ENDOFLINE, 3),
            mark(TokenType::ENDOFLINE, 4),
            mark(TokenType::ENDOFLINE, 5),
        ]
    );
}

#[test]
fn end_of_line_stands_last_on_its_line() {
    assert_eq!(
        lexed("x + 1\ny"),
        vec![
            word(TokenType::IDENTIFIER, "x", 1),
            mark(TokenType::PLUS, 1),
            word(TokenType::NUMBER, "1", 1),
            mark(TokenType::ENDOFLINE, 1),
            word(TokenType::IDENTIFIER, "y", 2),
            mark(TokenType::ENDOFLINE, 2),
        ]
    );
}

#[test]
fn scenario_variables() {
    assert_eq!(
        lexed("variables x = 1"),
        vec![
            mark(TokenType::VARIABLES, 1),
            word(TokenType::IDENTIFIER, "x", 1),
            mark(TokenType::EQUALS, 1),
            word(TokenType::NUMBER, "1", 1),
            mark(TokenType::ENDOFLINE, 1),
        ]
    );
}

#[test]
fn scenario_angle_brackets() {
    assert_eq!(
        lexed(">< > <>"),
        vec![
            mark(TokenType::GREATERTHAN, 1),
            mark(TokenType::LESSTHAN, 1),
            mark(TokenType::GREATERTHAN, 1),
            mark(TokenType::NOTEQUAL, 1),
            mark(TokenType::ENDOFLINE, 1),
        ]
    );
}

#[test]
fn scenario_indent_then_dedent() {
    assert_eq!(
        lexed("    hello\n   hi"),
        vec![
            mark(TokenType::INDENT, 1),
            word(TokenType::IDENTIFIER, "hello", 1),
            mark(TokenType::ENDOFLINE, 1),
            mark(TokenType::DEDENT, 2),
            word(TokenType::IDENTIFIER, "hi", 2),
            mark(TokenType::ENDOFLINE, 2),
        ]
    );
}

#[test]
fn scenario_comment_then_code() {
    assert_eq!(
        lexed("{This is a comment}\nhi"),
        vec![
            mark(TokenType::ENDOFLINE, 1),
            word(TokenType::IDENTIFIER, "hi", 2),
            mark(TokenType::ENDOFLINE, 2),
        ]
    );
}

#[test]
fn scenario_code_after_comment() {
    let error = fault("{This comment should fail}hi");
    assert_eq!(error.msg, "No code after a comment");
    assert_eq!(error.line_num, 1);
}

#[test]
fn scenario_unterminated_string() {
    let error = fault("x\ny = \"abc\nz");
    assert_eq!(error.msg, "No closing \" in STRINGLITERAL");
    assert_eq!(error.line_num, 2);
}

#[test]
fn indentation_by_tabs_and_spaces() {
    assert_eq!(
        lexed("a\n\t\tb\n        c\n\t    d\ne"),
        vec![
            word(TokenType::IDENTIFIER, "a", 1),
            mark(TokenType::ENDOFLINE, 1),
            mark(TokenType::INDENT, 2),
            mark(TokenType::INDENT, 2),
            word(TokenType::IDENTIFIER, "b", 2),
            mark(TokenType::ENDOFLINE, 2),
            word(TokenType::IDENTIFIER, "c", 3),
            mark(TokenType::ENDOFLINE, 3),
            word(TokenType::IDENTIFIER, "d", 4),
            mark(TokenType::ENDOFLINE, 4),
            mark(TokenType::DEDENT, 5),
            mark(TokenType::DEDENT, 5),
            word(TokenType::IDENTIFIER, "e", 5),
            mark(TokenType::ENDOFLINE, 5),
        ]
    );
}

#[test]
fn indentation_level_truncates() {
    assert_eq!(
        lexed("   a\n       b\n\t   c\n \t  d"),
        vec![
            word(TokenType::IDENTIFIER, "a", 1),
            mark(TokenType::ENDOFLINE, 1),
            mark(TokenType::INDENT, 2),
            word(TokenType::IDENTIFIER, "b", 2),
            mark(TokenType::ENDOFLINE, 2),
            word(TokenType::IDENTIFIER, "c", 3),
            mark(TokenType::ENDOFLINE, 3),
            word(TokenType::IDENTIFIER, "d", 4),
            mark(TokenType::ENDOFLINE, 4),
        ]
    );
}

#[test]
fn blank_lines_keep_the_level() {
    assert_eq!(
        lexed("\ta\n\n        \n\tb"),
        vec![
            mark(TokenType::INDENT, 1),
            word(TokenType::IDENTIFIER, "a", 1),
            mark(TokenType::ENDOFLINE, 1),
            mark(TokenType::ENDOFLINE, 2),
            mark(TokenType::ENDOFLINE, 3),
            word(TokenType::IDENTIFIER, "b", 4),
            mark(TokenType::ENDOFLINE, 4),
        ]
    );
}

#[test]
fn every_keyword_alone() {
    let table = [
        ("if", TokenType::IF),
        ("elsif", TokenType::ELSIF),
        ("else", TokenType::ELSE),
        ("then", TokenType::THEN),
        ("while", TokenType::WHILE),
        ("for", TokenType::REPEAT),
        ("until", TokenType::UNTIL),
        ("from", TokenType::FROM),
        ("to", TokenType::TO),
        ("define", TokenType::DEFINE),
        ("var", TokenType::VAR),
        ("array", TokenType::ARRAY),
        ("of", TokenType::OF),
        ("variables", TokenType::VARIABLES),
        ("constants", TokenType::CONSTANTS),
        ("integer", TokenType::INTEGER),
        ("real", TokenType::REAL),
        ("boolean", TokenType::BOOLEAN),
        ("mod", TokenType::MOD),
    ];
    for (text, kind) in table {
        assert_eq!(keyword_check(text), kind);
        assert_eq!(lexed(text), vec![mark(kind, 1), mark(TokenType::ENDOFLINE, 1)]);
    }
}

#[test]
fn other_words_are_identifiers() {
    for text in ["If", "iff", "i", "repeat", "FOR", "x1", "variable", "modulo", "ofof"] {
        assert_eq!(keyword_check(text), TokenType::IDENTIFIER);
        assert_eq!(
            lexed(text),
            vec![word(TokenType::IDENTIFIER, text, 1), mark(TokenType::ENDOFLINE, 1)]
        );
    }
    assert_eq!(keyword_check(""), TokenType::IDENTIFIER);
}

#[test]
fn a_letter_beyond_ascii_starts_a_word() {
    assert_eq!(
        lexed("\u{e9}t1"),
        vec![word(TokenType::IDENTIFIER, "\u{e9}t1", 1), mark(TokenType::ENDOFLINE, 1)]
    );
    assert_eq!(
        lexed("\u{4eac}"),
        vec![word(TokenType::IDENTIFIER, "\u{4eac}", 1), mark(TokenType::ENDOFLINE, 1)]
    );
}

#[test]
fn a_letter_beyond_ascii_ends_a_word() {
    let error = fault("t\u{e9}");
    assert_eq!(error.msg, "Unknown char '\u{e9}'");
    assert_eq!(error.line_num, 1);
}

#[test]
fn a_symbol_beyond_ascii_is_unknown() {
    let error = fault("\u{1f49d}");
    assert_eq!(error.msg, "Unknown char '\u{1f49d}'");
}

#[test]
fn comment_over_several_lines() {
    assert_eq!(
        lexed("a {one\ntwo := \"\nthree}  \nb"),
        vec![
            word(TokenType::IDENTIFIER, "a", 1),
            mark(TokenType::ENDOFLINE, 1),
            mark(TokenType::ENDOFLINE, 2),
            mark(TokenType::ENDOFLINE, 3),
            word(TokenType::IDENTIFIER, "b", 4),
            mark(TokenType::ENDOFLINE, 4),
        ]
    );
}

#[test]
fn code_after_comment_on_a_later_line() {
    let error = fault("{open\nstill} x");
    assert_eq!(error.msg, "No code after a comment");
    assert_eq!(error.line_num, 2);
}

#[test]
fn comment_does_not_move_the_level() {
    assert_eq!(
        lexed("\ta\n{c}\n\tb"),
        vec![
            mark(TokenType::INDENT, 1),
            word(TokenType::IDENTIFIER, "a", 1),
            mark(TokenType::ENDOFLINE, 1),
            mark(TokenType::ENDOFLINE, 2),
            word(TokenType::IDENTIFIER, "b", 3),
            mark(TokenType::ENDOFLINE, 3),
        ]
    );
}

#[test]
fn word_before_a_comment_is_made_at_line_end() {
    assert_eq!(
        lexed("ab{c}"),
        vec![word(TokenType::IDENTIFIER, "ab", 1), mark(TokenType::ENDOFLINE, 1)]
    );
}

#[test]
fn closing_brace_outside_a_comment() {
    let error = fault("}");
    assert_eq!(error.msg, "Unknown char '}'");
    assert_eq!(error.line_num, 1);
}

#[test]
fn single_character_symbols() {
    assert_eq!(
        lexed("+-*/;,=()[]:><"),
        vec![
            mark(TokenType::PLUS, 1),
            mark(TokenType::MINUS, 1),
            mark(TokenType::MULTIPLY, 1),
            mark(TokenType::DIVIDE, 1),
            mark(TokenType::SEMICOLON, 1),
            mark(TokenType::COMMA, 1),
            mark(TokenType::EQUALS, 1),
            mark(TokenType::LEFTPARENTHESIS, 1),
            mark(TokenType::RIGHTPARENTHESIS, 1),
            mark(TokenType::LEFTSQUAREBRACKET, 1),
            mark(TokenType::RIGHTSQUAREBRACKET, 1),
            mark(TokenType::COLON, 1),
            mark(TokenType::GREATERTHAN, 1),
            mark(TokenType::LESSTHAN, 1),
            mark(TokenType::ENDOFLINE, 1),
        ]
    );
}

#[test]
fn two_character_operators() {
    assert_eq!(
        lexed("a:=b>=c<=d<>e"),
        vec![
            word(TokenType::IDENTIFIER, "a", 1),
            mark(TokenType::ASSIGN, 1),
            word(TokenType::IDENTIFIER, "b", 1),
            mark(TokenType::GREATERTHANOREQUAL, 1),
            word(TokenType::IDENTIFIER, "c", 1),
            mark(TokenType::LESSTHANOREQUAL, 1),
            word(TokenType::IDENTIFIER, "d", 1),
            mark(TokenType::NOTEQUAL, 1),
            word(TokenType::IDENTIFIER, "e", 1),
            mark(TokenType::ENDOFLINE, 1),
        ]
    );
}

#[test]
fn lookahead_is_taken_once() {
    assert_eq!(
        lexed(":==  >==  <>=  <=>  : ="),
        vec![
            mark(TokenType::ASSIGN, 1),
            mark(TokenType::EQUALS, 1),
            mark(TokenType::GREATERTHANOREQUAL, 1),
            mark(TokenType::EQUALS, 1),
            mark(TokenType::NOTEQUAL, 1),
            mark(TokenType::EQUALS, 1),
            mark(TokenType::LESSTHANOREQUAL, 1),
            mark(TokenType::GREATERTHAN, 1),
            mark(TokenType::COLON, 1),
            mark(TokenType::EQUALS, 1),
            mark(TokenType::ENDOFLINE, 1),
        ]
    );
}

#[test]
fn taken_lookahead_skips_the_comment_filter() {
    let error = fault("a <}");
    assert_eq!(error.msg, "Unknown char '}'");
    assert_eq!(
        lexed("a :={"),
        vec![
            word(TokenType::IDENTIFIER, "a", 1),
            mark(TokenType::ASSIGN, 1),
            mark(TokenType::ENDOFLINE, 1),
        ]
    );
}

#[test]
fn numbers() {
    assert_eq!(
        lexed("12 3.25 .5 7. ."),
        vec![
            word(TokenType::NUMBER, "12", 1),
            word(TokenType::NUMBER, "3.25", 1),
            word(TokenType::NUMBER, ".5", 1),
            word(TokenType::NUMBER, "7.", 1),
            word(TokenType::NUMBER, ".", 1),
            mark(TokenType::ENDOFLINE, 1),
        ]
    );
}

#[test]
fn number_followed_by_a_letter() {
    let error = fault("12ab");
    assert_eq!(error.msg, "Unknown char 'a'");
    assert_eq!(error.line_num, 1);
    assert_eq!(
        lexed("12 ab"),
        vec![
            word(TokenType::NUMBER, "12", 1),
            word(TokenType::IDENTIFIER, "ab", 1),
            mark(TokenType::ENDOFLINE, 1),
        ]
    );
}

#[test]
fn two_decimals_in_a_number() {
    let error = fault("a\nb\n1.2.3");
    assert_eq!(error.msg, "Two decimals in number");
    assert_eq!(error.line_num, 3);
    assert_eq!(fault("..").msg, "Two decimals in number");
}

#[test]
fn string_literals() {
    assert_eq!(
        lexed("x := \"hello, 'world' 1.2.3 $\" + \"\""),
        vec![
            word(TokenType::IDENTIFIER, "x", 1),
            mark(TokenType::ASSIGN, 1),
            word(TokenType::STRINGLITERAL, "hello, 'world' 1.2.3 $", 1),
            mark(TokenType::PLUS, 1),
            word(TokenType::STRINGLITERAL, "", 1),
            mark(TokenType::ENDOFLINE, 1),
        ]
    );
}

#[test]
fn a_brace_in_a_string_opens_a_comment() {
    let error = fault("\"a{b}\"");
    assert_eq!(error.msg, "No code after a comment");
    let error = fault("\"a{b\nc}");
    assert_eq!(error.msg, "No closing \" in STRINGLITERAL");
    assert_eq!(error.line_num, 1);
}

#[test]
fn character_literals() {
    assert_eq!(
        lexed("'a' '\"' ''' ' '"),
        vec![
            word(TokenType::CHARACTERLITERAL, "a", 1),
            word(TokenType::CHARACTERLITERAL, "\"", 1),
            word(TokenType::CHARACTERLITERAL, "'", 1),
            word(TokenType::CHARACTERLITERAL, " ", 1),
            mark(TokenType::ENDOFLINE, 1),
        ]
    );
}

#[test]
fn character_literal_faults() {
    for text in ["'ab'", "'a", "'", "''"] {
        let error = fault(text);
        assert_eq!(error.msg, "No closing ' in CHARLITERAL");
        assert_eq!(error.line_num, 1);
    }
}

#[test]
fn scanning_twice_gives_the_same_tokens() {
    let text = "define f(x: integer)\n\tif x >= 1 then\n\t\tx := x mod 2 {halve}\n'c' \"s\" 1.5";
    assert_eq!(lexed(text), lexed(text));
    let first = Lexer::lex(text).unwrap();
    assert_eq!(first.tokens(), first.tokens());
}

#[test]
fn lines_as_the_standard_library_splits_them() {
    for text in [
        "",
        "a",
        "a\n",
        "a\nb",
        "a\r\nb\r\n",
        "a\r",
        "a\r\r\n",
        "\n",
        "\n\n",
        "\r\n",
        "\r",
        "a\n\nb",
        "a\rb\n",
        "\u{e9}\n\u{4eac}",
    ] {
        let ours: Vec<String> = split_lines(text).into_iter().map(|l| l.into_iter().collect()).collect();
        let theirs: Vec<String> = text.lines().map(|l| l.to_string()).collect();
        assert_eq!(ours, theirs, "{:?}", text);
    }
}
