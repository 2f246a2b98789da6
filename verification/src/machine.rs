//! The small state machines the scanner is composed of: the comment filter,
//! the indentation tracker, the classifier of words, numbers and literals, and
//! the scanner of operators and punctuation. Each is a function from a state
//! and a character to the next state.

use crate::chars::{alphabetic, ascii_alphanumeric, blank, decimal_digit};
use crate::{keyword_kind, TokenType, TokenView};
use vstd::prelude::*;

verus! {

/// Where the scanner stands with respect to `{...}` comments. The state lasts
/// from one line to the next: a comment may span lines.
#[derive(Clone, Copy, Debug, PartialEq, Eq, Structural)]
pub enum CommentState {
    /// Outside any comment.
    NoComment,
    /// Inside a comment that has not been closed.
    IsComment,
    /// Behind the `}` of a comment, on the line that holds the `}`.
    Done,
}

/// What the classifier is in the middle of.
#[derive(Clone, Copy, Debug, PartialEq, Eq, Structural)]
pub enum MachineState {
    Start,
    Word,
    Number,
    NumberDecimal,
    String,
    CharBeginning,
    CharMid,
}

/// The reasons for which a scan stops.
pub enum Fault {
    /// A second `.` in a number.
    TwoDecimals,
    /// A string literal that its line does not close.
    OpenString,
    /// A character literal that is not closed right after its one character.
    OpenChar,
    /// Anything but whitespace behind the `}` of a comment, on the same line.
    AfterComment,
    /// A character that neither starts a word, a number or a literal nor is an
    /// operator or a punctuation mark.
    UnknownChar(char),
}

/// The message by which a fault is reported.
pub open spec fn fault_message(fault: Fault) -> Seq<char> {
    match fault {
        Fault::TwoDecimals => "Two decimals in number"@,
        Fault::OpenString => "No closing \" in STRINGLITERAL"@,
        Fault::OpenChar => "No closing ' in CHARLITERAL"@,
        Fault::AfterComment => "No code after a comment"@,
        Fault::UnknownChar(c) => "Unknown char '"@.push(c).push('\''),
    }
}

/// The comment filter. A `{` outside a comment opens one and a `}` inside
/// closes it. Behind the closing `}` only whitespace may follow on the line.
pub open spec fn comment_step(state: CommentState, c: char) -> Result<CommentState, Fault> {
    match state {
        CommentState::NoComment => Ok(
            if c == '{' {
                CommentState::IsComment
            } else {
                CommentState::NoComment
            },
        ),
        CommentState::IsComment => Ok(
            if c == '}' {
                CommentState::Done
            } else {
                CommentState::IsComment
            },
        ),
        CommentState::Done => if blank(c) {
            Ok(CommentState::Done)
        } else {
            Err(Fault::AfterComment)
        },
    }
}

/// The comment state with which the next line begins: the ban on code behind a
/// closed comment ends with the line.
pub open spec fn comment_at_line_end(state: CommentState) -> CommentState {
    if state == CommentState::Done {
        CommentState::NoComment
    } else {
        state
    }
}

/// The columns that a tab or a space adds to the indentation of a line.
pub open spec fn column_width(c: char) -> nat {
    if c == '\t' {
        4
    } else {
        1
    }
}

/// Whether a character belongs to the indentation of a line.
pub open spec fn indents(c: char) -> bool {
    c == '\t' || c == ' '
}

/// The indentation level of a column count: whole groups of four columns.
pub open spec fn level_of(columns: nat) -> nat {
    columns / 4
}

/// The columns of a run of tabs and spaces.
pub open spec fn columns_of(margin: Seq<char>) -> nat
    decreases margin.len(),
{
    if margin.len() == 0 {
        0
    } else {
        columns_of(margin.drop_last()) + column_width(margin.last())
    }
}

/// A token without text.
pub open spec fn bare_token(kind: TokenType, line: nat) -> TokenView {
    TokenView { kind, lexeme: None, line }
}

/// A token `count` times over.
pub open spec fn repeated(token: TokenView, count: nat) -> Seq<TokenView> {
    Seq::new(count, |i: int| token)
}

/// The structural tokens for a change of level: one `INDENT` for each level
/// gained, one `DEDENT` for each level lost.
pub open spec fn indent_tokens(from: nat, to: nat, line: nat) -> Seq<TokenView> {
    if to >= from {
        repeated(bare_token(TokenType::INDENT, line), (to - from) as nat)
    } else {
        repeated(bare_token(TokenType::DEDENT, line), (from - to) as nat)
    }
}

/// The classifier of words, numbers and literals.
pub open spec fn machine_step(state: MachineState, c: char) -> Result<MachineState, Fault> {
    match state {
        MachineState::Start => Ok(
            if alphabetic(c) {
                MachineState::Word
            } else if decimal_digit(c) {
                MachineState::Number
            } else if c == '.' {
                MachineState::NumberDecimal
            } else if c == '"' {
                MachineState::String
            } else if c == '\'' {
                MachineState::CharBeginning
            } else {
                MachineState::Start
            },
        ),
        MachineState::Word => Ok(
            if ascii_alphanumeric(c) {
                MachineState::Word
            } else {
                MachineState::Start
            },
        ),
        MachineState::Number => Ok(
            if c == '.' {
                MachineState::NumberDecimal
            } else if decimal_digit(c) {
                MachineState::Number
            } else {
                MachineState::Start
            },
        ),
        MachineState::NumberDecimal => if c == '.' {
            Err(Fault::TwoDecimals)
        } else if decimal_digit(c) {
            Ok(MachineState::NumberDecimal)
        } else {
            Ok(MachineState::Start)
        },
        MachineState::String => Ok(
            if c == '"' {
                MachineState::Start
            } else {
                MachineState::String
            },
        ),
        MachineState::CharBeginning => Ok(MachineState::CharMid),
        MachineState::CharMid => if c == '\'' {
            Ok(MachineState::Start)
        } else {
            Err(Fault::OpenChar)
        },
    }
}

/// Whether a state ends on the delimiter that closes a literal. That delimiter
/// is part of the literal; every other character that ends a state goes on to
/// the scanner of operators.
pub open spec fn closes_literal(state: MachineState) -> bool {
    state == MachineState::String || state == MachineState::CharMid
}

/// The token of a word: a keyword is its kind and carries no text, any other
/// word is an `IDENTIFIER` that carries the word.
pub open spec fn word_token(word: Seq<char>, line: nat) -> TokenView {
    if keyword_kind(word) == TokenType::IDENTIFIER {
        TokenView { kind: TokenType::IDENTIFIER, lexeme: Some(word), line }
    } else {
        TokenView { kind: keyword_kind(word), lexeme: None, line }
    }
}

/// The token that a state yields when it ends with `buffer` gathered. The
/// buffer of a literal begins with the opening delimiter, which is no part of
/// the lexeme.
pub open spec fn finished_token(state: MachineState, buffer: Seq<char>, line: nat) -> Option<
    TokenView,
> {
    match state {
        MachineState::Start => None,
        MachineState::Word => Some(word_token(buffer, line)),
        MachineState::Number | MachineState::NumberDecimal => Some(
            TokenView { kind: TokenType::NUMBER, lexeme: Some(buffer), line },
        ),
        MachineState::CharBeginning | MachineState::CharMid => Some(
            TokenView { kind: TokenType::CHARACTERLITERAL, lexeme: Some(buffer.drop_first()), line },
        ),
        MachineState::String => Some(
            TokenView { kind: TokenType::STRINGLITERAL, lexeme: Some(buffer.drop_first()), line },
        ),
    }
}

/// What the scanner of operators makes of a character: the kind of the token,
/// if there is one, and whether the character after it belongs to the token.
pub struct Symbol {
    pub kind: Option<TokenType>,
    pub takes_next: bool,
}

/// The scanner of operators and punctuation. `next` is the character after
/// `c` on the line, or NUL at the end of the line. Whitespace is no token; the
/// longest operator wins.
pub open spec fn symbol_step(c: char, next: char) -> Result<Symbol, Fault> {
    if blank(c) {
        Ok(Symbol { kind: None, takes_next: false })
    } else if c == ':' && next == '=' {
        Ok(Symbol { kind: Some(TokenType::ASSIGN), takes_next: true })
    } else if c == '>' && next == '=' {
        Ok(Symbol { kind: Some(TokenType::GREATERTHANOREQUAL), takes_next: true })
    } else if c == '<' && next == '>' {
        Ok(Symbol { kind: Some(TokenType::NOTEQUAL), takes_next: true })
    } else if c == '<' && next == '=' {
        Ok(Symbol { kind: Some(TokenType::LESSTHANOREQUAL), takes_next: true })
    } else {
        match single_symbol(c) {
            Some(kind) => Ok(Symbol { kind: Some(kind), takes_next: false }),
            None => Err(Fault::UnknownChar(c)),
        }
    }
}

/// The kind of the operator or punctuation mark that a character is by
/// itself.
pub open spec fn single_symbol(c: char) -> Option<TokenType> {
    if c == '+' {
        Some(TokenType::PLUS)
    } else if c == '-' {
        Some(TokenType::MINUS)
    } else if c == '*' {
        Some(TokenType::MULTIPLY)
    } else if c == '/' {
        Some(TokenType::DIVIDE)
    } else if c == ';' {
        Some(TokenType::SEMICOLON)
    } else if c == ',' {
        Some(TokenType::COMMA)
    } else if c == '=' {
        Some(TokenType::EQUALS)
    } else if c == '(' {
        Some(TokenType::LEFTPARENTHESIS)
    } else if c == ')' {
        Some(TokenType::RIGHTPARENTHESIS)
    } else if c == '[' {
        Some(TokenType::LEFTSQUAREBRACKET)
    } else if c == ']' {
        Some(TokenType::RIGHTSQUAREBRACKET)
    } else if c == ':' {
        Some(TokenType::COLON)
    } else if c == '>' {
        Some(TokenType::GREATERTHAN)
    } else if c == '<' {
        Some(TokenType::LESSTHAN)
    } else {
        None
    }
}

/// The character after position `pos` of a line, or NUL where the line ends
/// there.
pub open spec fn peek(line: Seq<char>, pos: int) -> char {
    if 0 <= pos + 1 < line.len() {
        line[pos + 1]
    } else {
        '\0'
    }
}

/// How far the indentation of the line in hand has been counted.
#[derive(Clone, Copy, Debug)]
pub enum Indentation {
    /// Still in the margin, with `level` whole groups of four columns and
    /// `spare` columns more counted so far.
    Counting { level: usize, spare: u8 },
    /// The first character behind the margin has been seen.
    Resolved,
}

impl Indentation {
    /// A count keeps fewer than four spare columns.
    pub open spec fn wf(self) -> bool {
        self matches Indentation::Counting { level, spare } ==> spare < 4
    }

    /// The columns counted so far, or `None` once the indentation is resolved.
    pub open spec fn columns(self) -> Option<nat> {
        match self {
            Indentation::Counting { level, spare } => Some((4 * level + spare) as nat),
            Indentation::Resolved => None,
        }
    }
}

} // verus!
