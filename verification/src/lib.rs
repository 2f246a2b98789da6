//! Tokens of an indentation-sensitive, Pascal-like teaching language, and the
//! lexical analyzer that produces them from source text.
//!
//! The crate root holds the token vocabulary: [`TokenType`], [`Token`] and the
//! keyword table. The scanner itself lives in [`lexer`]; its mathematical
//! description is in [`scan`], built from the small transition functions of
//! [`machine`], and the properties proved of it are in [`laws`].

use crate::strings::chars_of;
use vstd::prelude::*;
use vstd::string::StringExecFns;

pub mod chars;
pub mod laws;
pub mod lexer;
pub mod machine;
pub mod scan;
pub mod strings;
pub mod text;

verus! {

/// The closed set of token kinds.
#[allow(non_camel_case_types)]
#[derive(Clone, Copy, Debug, PartialEq, Eq, Structural)]
pub enum TokenType {
    INDENT,
    DEDENT,
    IDENTIFIER,
    NUMBER,
    ENDOFLINE,
    CHARACTERLITERAL,
    STRINGLITERAL,
    IF,
    ELSIF,
    ELSE,
    THEN,
    WHILE,
    REPEAT,
    UNTIL,
    FROM,
    TO,
    DEFINE,
    VAR,
    ARRAY,
    OF,
    VARIABLES,
    CONSTANTS,
    INTEGER,
    REAL,
    BOOLEAN,
    MOD,
    PLUS,
    MINUS,
    MULTIPLY,
    DIVIDE,
    EQUALS,
    NOTEQUAL,
    LESSTHAN,
    LESSTHANOREQUAL,
    GREATERTHAN,
    GREATERTHANOREQUAL,
    ASSIGN,
    COLON,
    SEMICOLON,
    COMMA,
    LEFTPARENTHESIS,
    RIGHTPARENTHESIS,
    RIGHTSQUAREBRACKET,
    LEFTSQUAREBRACKET,
}

/// The name of a kind, as it is written in a dump of tokens.
pub open spec fn kind_name(kind: TokenType) -> Seq<char> {
    match kind {
        TokenType::INDENT => "INDENT"@,
        TokenType::DEDENT => "DEDENT"@,
        TokenType::IDENTIFIER => "IDENTIFIER"@,
        TokenType::NUMBER => "NUMBER"@,
        TokenType::ENDOFLINE => "ENDOFLINE"@,
        TokenType::CHARACTERLITERAL => "CHARACTERLITERAL"@,
        TokenType::STRINGLITERAL => "STRINGLITERAL"@,
        TokenType::IF => "IF"@,
        TokenType::ELSIF => "ELSIF"@,
        TokenType::ELSE => "ELSE"@,
        TokenType::THEN => "THEN"@,
        TokenType::WHILE => "WHILE"@,
        TokenType::REPEAT => "REPEAT"@,
        TokenType::UNTIL => "UNTIL"@,
        TokenType::FROM => "FROM"@,
        TokenType::TO => "TO"@,
        TokenType::DEFINE => "DEFINE"@,
        TokenType::VAR => "VAR"@,
        TokenType::ARRAY => "ARRAY"@,
        TokenType::OF => "OF"@,
        TokenType::VARIABLES => "VARIABLES"@,
        TokenType::CONSTANTS => "CONSTANTS"@,
        TokenType::INTEGER => "INTEGER"@,
        TokenType::REAL => "REAL"@,
        TokenType::BOOLEAN => "BOOLEAN"@,
        TokenType::MOD => "MOD"@,
        TokenType::PLUS => "PLUS"@,
        TokenType::MINUS => "MINUS"@,
        TokenType::MULTIPLY => "MULTIPLY"@,
        TokenType::DIVIDE => "DIVIDE"@,
        TokenType::EQUALS => "EQUALS"@,
        TokenType::NOTEQUAL => "NOTEQUAL"@,
        TokenType::LESSTHAN => "LESSTHAN"@,
        TokenType::LESSTHANOREQUAL => "LESSTHANOREQUAL"@,
        TokenType::GREATERTHAN => "GREATERTHAN"@,
        TokenType::GREATERTHANOREQUAL => "GREATERTHANOREQUAL"@,
        TokenType::ASSIGN => "ASSIGN"@,
        TokenType::COLON => "COLON"@,
        TokenType::SEMICOLON => "SEMICOLON"@,
        TokenType::COMMA => "COMMA"@,
        TokenType::LEFTPARENTHESIS => "LEFTPARENTHESIS"@,
        TokenType::RIGHTPARENTHESIS => "RIGHTPARENTHESIS"@,
        TokenType::RIGHTSQUAREBRACKET => "RIGHTSQUAREBRACKET"@,
        TokenType::LEFTSQUAREBRACKET => "LEFTSQUAREBRACKET"@,
    }
}

impl TokenType {
    /// The name of the kind.
    pub fn name(&self) -> (name: &'static str)
        ensures
            name@ == kind_name(*self),
    {
        match self {
            TokenType::INDENT => "INDENT",
            TokenType::DEDENT => "DEDENT",
            TokenType::IDENTIFIER => "IDENTIFIER",
            TokenType::NUMBER => "NUMBER",
            TokenType::ENDOFLINE => "ENDOFLINE",
            TokenType::CHARACTERLITERAL => "CHARACTERLITERAL",
            TokenType::STRINGLITERAL => "STRINGLITERAL",
            TokenType::IF => "IF",
            TokenType::ELSIF => "ELSIF",
            TokenType::ELSE => "ELSE",
            TokenType::THEN => "THEN",
            TokenType::WHILE => "WHILE",
            TokenType::REPEAT => "REPEAT",
            TokenType::UNTIL => "UNTIL",
            TokenType::FROM => "FROM",
            TokenType::TO => "TO",
            TokenType::DEFINE => "DEFINE",
            TokenType::VAR => "VAR",
            TokenType::ARRAY => "ARRAY",
            TokenType::OF => "OF",
            TokenType::VARIABLES => "VARIABLES",
            TokenType::CONSTANTS => "CONSTANTS",
            TokenType::INTEGER => "INTEGER",
            TokenType::REAL => "REAL",
            TokenType::BOOLEAN => "BOOLEAN",
            TokenType::MOD => "MOD",
            TokenType::PLUS => "PLUS",
            TokenType::MINUS => "MINUS",
            TokenType::MULTIPLY => "MULTIPLY",
            TokenType::DIVIDE => "DIVIDE",
            TokenType::EQUALS => "EQUALS",
            TokenType::NOTEQUAL => "NOTEQUAL",
            TokenType::LESSTHAN => "LESSTHAN",
            TokenType::LESSTHANOREQUAL => "LESSTHANOREQUAL",
            TokenType::GREATERTHAN => "GREATERTHAN",
            TokenType::GREATERTHANOREQUAL => "GREATERTHANOREQUAL",
            TokenType::ASSIGN => "ASSIGN",
            TokenType::COLON => "COLON",
            TokenType::SEMICOLON => "SEMICOLON",
            TokenType::COMMA => "COMMA",
            TokenType::LEFTPARENTHESIS => "LEFTPARENTHESIS",
            TokenType::RIGHTPARENTHESIS => "RIGHTPARENTHESIS",
            TokenType::RIGHTSQUAREBRACKET => "RIGHTSQUAREBRACKET",
            TokenType::LEFTSQUAREBRACKET => "LEFTSQUAREBRACKET",
        }
    }
}

/// The kind that the keyword table gives a word: the keyword's kind where the
/// word is a keyword, spelled exactly and in lower case, and `IDENTIFIER` for
/// every other word. The word `for` stands for the `REPEAT` kind.
pub open spec fn keyword_kind(word: Seq<char>) -> TokenType {
    if word == "if"@ {
        TokenType::IF
    } else if word == "elsif"@ {
        TokenType::ELSIF
    } else if word == "else"@ {
        TokenType::ELSE
    } else if word == "then"@ {
        TokenType::THEN
    } else if word == "while"@ {
        TokenType::WHILE
    } else if word == "for"@ {
        TokenType::REPEAT
    } else if word == "until"@ {
        TokenType::UNTIL
    } else if word == "from"@ {
        TokenType::FROM
    } else if word == "to"@ {
        TokenType::TO
    } else if word == "define"@ {
        TokenType::DEFINE
    } else if word == "var"@ {
        TokenType::VAR
    } else if word == "array"@ {
        TokenType::ARRAY
    } else if word == "of"@ {
        TokenType::OF
    } else if word == "variables"@ {
        TokenType::VARIABLES
    } else if word == "constants"@ {
        TokenType::CONSTANTS
    } else if word == "integer"@ {
        TokenType::INTEGER
    } else if word == "real"@ {
        TokenType::REAL
    } else if word == "boolean"@ {
        TokenType::BOOLEAN
    } else if word == "mod"@ {
        TokenType::MOD
    } else {
        TokenType::IDENTIFIER
    }
}

/// Whether `word` and `text` hold the same characters.
fn spells(word: &Vec<char>, text: &str) -> (same: bool)
    ensures
        same == (word@ == text@),
{
    let mut agree = true;
    let mut seen: usize = 0;
    for c in it: text.chars()
        invariant
            it.seq() == text@,
            seen <= word.len(),
            agree ==> seen == it.index() && word@.take(seen as int) == text@.take(seen as int),
            !agree ==> word@ != text@,
    {
        if agree {
            if seen < word.len() && word[seen] == c {
                seen = seen + 1;
                assert(word@.take(seen as int) == word@.take(seen - 1).push(c));
                assert(text@.take(seen as int) == text@.take(seen - 1).push(c));
            } else {
                agree = false;
                assert(seen < word.len() ==> word@[seen as int] != text@[seen as int]);
            }
        }
    }
    assert(agree ==> text@.take(seen as int) == text@);
    assert(seen == word.len() ==> word@.take(seen as int) == word@);
    agree && seen == word.len()
}

/// The kind of the word `s` by the keyword table: a keyword's kind, or
/// `IDENTIFIER` for any other word.
pub fn keyword_check(s: &str) -> (kind: TokenType)
    ensures
        kind == keyword_kind(s@),
{
    let word = chars_of(s);
    if spells(&word, "if") {
        TokenType::IF
    } else if spells(&word, "elsif") {
        TokenType::ELSIF
    } else if spells(&word, "else") {
        TokenType::ELSE
    } else if spells(&word, "then") {
        TokenType::THEN
    } else if spells(&word, "while") {
        TokenType::WHILE
    } else if spells(&word, "for") {
        TokenType::REPEAT
    } else if spells(&word, "until") {
        TokenType::UNTIL
    } else if spells(&word, "from") {
        TokenType::FROM
    } else if spells(&word, "to") {
        TokenType::TO
    } else if spells(&word, "define") {
        TokenType::DEFINE
    } else if spells(&word, "var") {
        TokenType::VAR
    } else if spells(&word, "array") {
        TokenType::ARRAY
    } else if spells(&word, "of") {
        TokenType::OF
    } else if spells(&word, "variables") {
        TokenType::VARIABLES
    } else if spells(&word, "constants") {
        TokenType::CONSTANTS
    } else if spells(&word, "integer") {
        TokenType::INTEGER
    } else if spells(&word, "real") {
        TokenType::REAL
    } else if spells(&word, "boolean") {
        TokenType::BOOLEAN
    } else if spells(&word, "mod") {
        TokenType::MOD
    } else {
        TokenType::IDENTIFIER
    }
}

/// What a token is: its kind, the text it carries, if any, and the number of
/// the line it stands on.
pub struct TokenView {
    pub kind: TokenType,
    pub lexeme: Option<Seq<char>>,
    pub line: nat,
}

/// A classified unit of source text.
#[derive(Debug, PartialEq)]
pub struct Token {
    ttype: TokenType,
    value: Option<String>,
    line: u32,
}

impl View for Token {
    type V = TokenView;

    closed spec fn view(&self) -> TokenView {
        TokenView {
            kind: self.ttype,
            lexeme: match self.value {
                Some(text) => Some(text@),
                None => None,
            },
            line: self.line as nat,
        }
    }
}

impl Clone for Token {
    fn clone(&self) -> (copy: Self)
        ensures
            copy@ == self@,
    {
        Token {
            ttype: self.ttype,
            value: match &self.value {
                Some(text) => Some(text.clone()),
                None => None,
            },
            line: self.line,
        }
    }
}

/// Whether tokens of a kind are written with their text in a dump.
pub open spec fn shows_lexeme(kind: TokenType) -> bool {
    kind == TokenType::IDENTIFIER || kind == TokenType::NUMBER || kind == TokenType::STRINGLITERAL
        || kind == TokenType::CHARACTERLITERAL
}

/// The text of a lexeme as a dump shows it: a string literal between double
/// quotes, a character literal between single quotes, any other as it is.
pub open spec fn quoted(kind: TokenType, lexeme: Seq<char>) -> Seq<char> {
    if kind == TokenType::STRINGLITERAL {
        seq!['"'] + lexeme + seq!['"']
    } else if kind == TokenType::CHARACTERLITERAL {
        seq!['\''] + lexeme + seq!['\'']
    } else {
        lexeme
    }
}

/// A token as a dump shows it: the bare name of its kind, followed, for an
/// identifier, a number or a literal that carries text, by that text in
/// parentheses.
pub open spec fn render_token(token: TokenView) -> Seq<char> {
    match token.lexeme {
        Some(lexeme) if shows_lexeme(token.kind) => kind_name(token.kind) + seq!['('] + quoted(
            token.kind,
            lexeme,
        ) + seq![')'],
        _ => kind_name(token.kind),
    }
}

impl Token {
    /// A token that carries the text `value`.
    pub fn new_with_value(ttype: TokenType, value: &str, line: u32) -> (token: Token)
        ensures
            token@ == (TokenView { kind: ttype, lexeme: Some(value@), line: line as nat }),
    {
        Token { ttype, value: Some(value.to_owned()), line }
    }

    /// A token that carries no text.
    pub fn new(ttype: TokenType, line: u32) -> (token: Token)
        ensures
            token@ == (TokenView { kind: ttype, lexeme: None, line: line as nat }),
    {
        Token { ttype, value: None, line }
    }

    /// The kind of the token.
    pub fn token_type(&self) -> (kind: TokenType)
        ensures
            kind == self@.kind,
    {
        self.ttype
    }

    /// The token as a dump shows it.
    pub fn to_string(&self) -> (shown: String)
        ensures
            shown@ == render_token(self@),
    {
        let mut shown = self.ttype.name().to_owned();
        match &self.value {
            Some(text) => {
                let kind = self.ttype;
                if kind == TokenType::IDENTIFIER || kind == TokenType::NUMBER {
                    shown.push('(');
                    shown.append(text.as_str());
                    shown.push(')');
                } else if kind == TokenType::STRINGLITERAL {
                    shown.push('(');
                    shown.push('"');
                    shown.append(text.as_str());
                    shown.push('"');
                    shown.push(')');
                } else if kind == TokenType::CHARACTERLITERAL {
                    shown.push('(');
                    shown.push('\'');
                    shown.append(text.as_str());
                    shown.push('\'');
                    shown.push(')');
                }
            },
            None => {},
        }
        assert(shown@ =~= render_token(self@));
        shown
    }
}

} // verus!
