//! The lexical analyzer: one pass over a text, line by line and character by
//! character, that stops at the first fault.

use crate::chars::{is_ascii_alphanumeric, is_blank, is_decimal_digit};
use crate::machine::{
    bare_token, comment_step, fault_message, finished_token, machine_step, peek, repeated,
    symbol_step, CommentState, Fault, Indentation, MachineState,
};
use crate::scan::{
    finish_state, indent_step, lemma_scan_line_keeps_line_num, offer, scan_from, scan_line,
    scan_lines, scan_text, Outcome, Scan, Session,
};
use crate::strings::{chars_of, without_first};
use crate::text::{line_views, lines_of, split_lines};
use crate::{keyword_check, render_token, Token, TokenType, TokenView};
use vstd::prelude::*;
use vstd::string::StringExecFns;

verus! {

/// The state of one scan: the tokens made so far, and what lasts from one line
/// to the next.
#[derive(Debug)]
pub struct Lexer {
    tokens: Vec<Token>,
    previous_indentation: usize,
    comment_state: CommentState,
    line_num: u32,
}

/// The fault that stopped a scan, with the number of the line it stands on.
#[derive(Debug, PartialEq)]
pub struct LexError {
    pub msg: String,
    pub line_num: u32,
}

/// Whether an error reports `fault` on line `line`.
pub open spec fn reports(error: LexError, fault: Fault, line: nat) -> bool {
    error.msg@ == fault_message(fault) && error.line_num == line
}

/// Whether the result of a scan is what `outcome` asks for: the fault on the
/// line in hand, if there is one, and nothing otherwise.
pub open spec fn result_of(outcome: Outcome, result: Result<(), LexError>) -> bool {
    match outcome.fault {
        Some(fault) => result matches Err(error) && reports(error, fault, outcome.session.line_num),
        None => result is Ok,
    }
}

/// What a sequence of tokens is.
pub open spec fn token_views(tokens: Seq<Token>) -> Seq<TokenView> {
    tokens.map_values(|token: Token| token@)
}

/// A dump of tokens: each token as `render_token` shows it, a line break
/// behind each `ENDOFLINE` and a space behind any other token.
pub open spec fn render_tokens(tokens: Seq<TokenView>) -> Seq<char>
    decreases tokens.len(),
{
    if tokens.len() == 0 {
        Seq::empty()
    } else {
        render_tokens(tokens.drop_last()) + render_token(tokens.last()).push(
            if tokens.last().kind == TokenType::ENDOFLINE {
                '\n'
            } else {
                ' '
            },
        )
    }
}

impl LexError {
    pub(crate) fn new(msg: &str, line_num: u32) -> (error: LexError)
        ensures
            error.msg@ == msg@,
            error.line_num == line_num,
    {
        LexError { msg: msg.to_owned(), line_num }
    }
}

/// The character after position `line_pos`, or NUL at the end of the line.
pub fn peak(v: &Vec<char>, line_pos: usize) -> (c: char)
    ensures
        c == peek(v@, line_pos as int),
{
    if v.len() > 0 && line_pos < v.len() - 1 {
        return v[line_pos + 1];
    }
    '\0'
}

impl View for Lexer {
    type V = Session;

    closed spec fn view(&self) -> Session {
        Session {
            tokens: token_views(self.tokens@),
            level: self.previous_indentation as nat,
            comment: self.comment_state,
            line_num: self.line_num as nat,
        }
    }
}

/// Whether `result` is what the scan of `text` comes to: the session that the
/// scan reached, where no fault stopped it, and else the first fault with the
/// number of its line.
pub open spec fn lexed(text: Seq<char>, result: Result<Lexer, LexError>) -> bool {
    match scan_text(text).fault {
        None => result matches Ok(lexer) && lexer@ == scan_text(text).session,
        Some(fault) => result matches Err(error) && reports(
            error,
            fault,
            scan_text(text).session.line_num,
        ),
    }
}

impl Lexer {
    fn new() -> (lexer: Lexer)
        ensures
            lexer@ == Session::initial(),
    {
        let lexer = Lexer {
            tokens: Vec::new(),
            previous_indentation: 0,
            comment_state: CommentState::NoComment,
            line_num: 0,
        };
        assert(lexer@.tokens =~= Seq::empty());
        lexer
    }

    fn add_token(&mut self, ttype: TokenType)
        ensures
            final(self)@ == old(self)@.emit_one(Some(bare_token(ttype, old(self)@.line_num))),
    {
        self.tokens.push(Token::new(ttype, self.line_num));
        assert(final(self)@.tokens =~= old(self)@.tokens.push(
            bare_token(ttype, old(self)@.line_num),
        ));
    }

    fn add_token_with_val(&mut self, ttype: TokenType, str_buffer: &str)
        ensures
            final(self)@ == old(self)@.emit_one(
                Some(
                    TokenView {
                        kind: ttype,
                        lexeme: Some(str_buffer@),
                        line: old(self)@.line_num,
                    },
                ),
            ),
    {
        self.tokens.push(Token::new_with_value(ttype, str_buffer, self.line_num));
        assert(final(self)@.tokens =~= old(self)@.tokens.push(
            TokenView { kind: ttype, lexeme: Some(str_buffer@), line: old(self)@.line_num },
        ));
    }

    /// The comment filter: whether a comment took the character.
    pub fn check_comment(&mut self, input_char: char) -> (taken: Result<bool, LexError>)
        ensures
            match comment_step(old(self)@.comment, input_char) {
                Ok(comment) => final(self)@ == (Session { comment, ..old(self)@ }) && taken
                    == Ok::<bool, LexError>(comment != CommentState::NoComment),
                Err(fault) => final(self)@ == old(self)@ && (taken matches Err(error) && reports(
                    error,
                    fault,
                    old(self)@.line_num,
                )),
            },
    {
        match self.comment_state {
            CommentState::NoComment => {
                if input_char == '{' {
                    self.comment_state = CommentState::IsComment;
                }
            },
            CommentState::IsComment => {
                if input_char == '}' {
                    self.comment_state = CommentState::Done;
                }
            },
            CommentState::Done => {
                if !is_blank(input_char) {
                    return Err(LexError::new("No code after a comment", self.line_num));
                }
            },
        }
        Ok(self.comment_state != CommentState::NoComment)
    }

    /// The indentation tracker: the count after the character, with the tokens
    /// for a change of level made where the character resolves the
    /// indentation. The session keeps the level of the line, its columns
    /// divided by four, to hold the next line against. A count is never as
    /// large as `usize::MAX`: it counts characters of a line in memory.
    pub fn count_indentation(&mut self, indentation: Indentation, input_char: char) -> (counted:
        Indentation)
        requires
            indentation.wf(),
            indentation matches Indentation::Counting { level, .. } ==> level < usize::MAX,
        ensures
            counted.wf(),
            (final(self)@, counted.columns()) == indent_step(
                old(self)@,
                indentation.columns(),
                input_char,
            ),
    {
        match indentation {
            Indentation::Resolved => Indentation::Resolved,
            Indentation::Counting { level, spare } => {
                if input_char == '\t' {
                    Indentation::Counting { level: level + 1, spare }
                } else if input_char == ' ' {
                    if spare == 3 {
                        Indentation::Counting { level: level + 1, spare: 0 }
                    } else {
                        Indentation::Counting { level, spare: spare + 1 }
                    }
                } else {
                    let previous = self.previous_indentation;
                    let (kind, count) = if level >= previous {
                        (TokenType::INDENT, level - previous)
                    } else {
                        (TokenType::DEDENT, previous - level)
                    };
                    let ghost token = bare_token(kind, self@.line_num);
                    let mut made: usize = 0;
                    assert(self@.emit(repeated(token, 0)) == self@) by {
                        assert(self@.tokens + repeated(token, 0) =~= self@.tokens);
                    }
                    while made < count
                        invariant
                            made <= count,
                            token == bare_token(kind, self@.line_num),
                            self@ == old(self)@.emit(repeated(token, made as nat)),
                        decreases count - made,
                    {
                        self.add_token(kind);
                        made = made + 1;
                        assert(old(self)@.tokens + repeated(token, made as nat) =~= (old(self)@.tokens
                            + repeated(token, (made - 1) as nat)).push(token));
                    }
                    self.previous_indentation = level;
                    Indentation::Resolved
                }
            },
        }
    }

    /// The classifier: the state after the character.
    pub fn update_machine(&self, state: MachineState, input_char: char) -> (next: Result<
        MachineState,
        LexError,
    >)
        ensures
            match machine_step(state, input_char) {
                Ok(after) => next == Ok::<MachineState, LexError>(after),
                Err(fault) => next matches Err(error) && reports(error, fault, self@.line_num),
            },
    {
        let mut state = state;
        match state {
            MachineState::Start => {
                if input_char.is_alphabetic() {
                    state = MachineState::Word;
                } else if is_decimal_digit(input_char) {
                    state = MachineState::Number;
                } else if input_char == '.' {
                    state = MachineState::NumberDecimal;
                } else if input_char == '"' {
                    state = MachineState::String;
                } else if input_char == '\'' {
                    state = MachineState::CharBeginning;
                }
            },
            MachineState::Word => {
                if !is_ascii_alphanumeric(input_char) {
                    state = MachineState::Start;
                }
            },
            MachineState::Number => {
                if input_char == '.' {
                    state = MachineState::NumberDecimal;
                } else if !is_decimal_digit(input_char) {
                    state = MachineState::Start;
                }
            },
            MachineState::NumberDecimal => {
                if input_char == '.' {
                    return Err(LexError::new("Two decimals in number", self.line_num));
                } else if !is_decimal_digit(input_char) {
                    state = MachineState::Start;
                }
            },
            MachineState::String => {
                if input_char == '"' {
                    state = MachineState::Start;
                }
            },
            MachineState::CharBeginning => {
                state = MachineState::CharMid;
            },
            MachineState::CharMid => {
                if input_char == '\'' {
                    state = MachineState::Start;
                } else {
                    return Err(LexError::new("No closing ' in CHARLITERAL", self.line_num));
                }
            },
        }
        Ok(state)
    }

    /// Makes the token of a state that has ended with `str_buffer` gathered:
    /// none for `Start`, one for any other state. A keyword carries no text. The
    /// buffer of a literal begins with its opening delimiter, so it is not
    /// empty; the delimiter is no part of the lexeme.
    pub fn add_token_from_state(&mut self, state: MachineState, str_buffer: &str)
        requires
            state == MachineState::String || state == MachineState::CharBeginning || state
                == MachineState::CharMid ==> str_buffer@.len() > 0,
        ensures
            final(self)@ == old(self)@.emit_one(
                finished_token(state, str_buffer@, old(self)@.line_num),
            ),
    {
        match state {
            MachineState::Start => {},
            MachineState::Word => {
                let kind = keyword_check(str_buffer);
                if kind == TokenType::IDENTIFIER {
                    self.add_token_with_val(kind, str_buffer);
                } else {
                    self.add_token(kind);
                }
            },
            MachineState::Number => self.add_token_with_val(TokenType::NUMBER, str_buffer),
            MachineState::NumberDecimal => self.add_token_with_val(TokenType::NUMBER, str_buffer),
            MachineState::CharMid | MachineState::CharBeginning => {
                let s = without_first(str_buffer);
                self.add_token_with_val(TokenType::CHARACTERLITERAL, s.as_str());
            },
            MachineState::String => {
                let s = without_first(str_buffer);
                self.add_token_with_val(TokenType::STRINGLITERAL, s.as_str());
            },
        }
    }

    /// The scanner of operators and punctuation: makes the token of
    /// `current_char`, if it is one, and returns how many characters behind
    /// `current_char` belong to that token.
    pub fn check_character(&mut self, current_char: char, next_char: char) -> (taken: Result<
        usize,
        LexError,
    >)
        ensures
            match symbol_step(current_char, next_char) {
                Ok(symbol) => final(self)@ == old(self)@.emit_one(
                    match symbol.kind {
                        Some(kind) => Some(bare_token(kind, old(self)@.line_num)),
                        None => None,
                    },
                ) && taken == Ok::<usize, LexError>(
                    if symbol.takes_next {
                        1usize
                    } else {
                        0usize
                    },
                ),
                Err(fault) => final(self)@ == old(self)@ && (taken matches Err(error) && reports(
                    error,
                    fault,
                    old(self)@.line_num,
                )),
            },
    {
        if is_blank(current_char) {
            return Ok(0);
        }
        let mut look_ahead_addition: usize = 0;
        if current_char == '+' {
            self.add_token(TokenType::PLUS);
        } else if current_char == '-' {
            self.add_token(TokenType::MINUS);
        } else if current_char == '*' {
            self.add_token(TokenType::MULTIPLY);
        } else if current_char == '/' {
            self.add_token(TokenType::DIVIDE);
        } else if current_char == ';' {
            self.add_token(TokenType::SEMICOLON);
        } else if current_char == ',' {
            self.add_token(TokenType::COMMA);
        } else if current_char == '=' {
            self.add_token(TokenType::EQUALS);
        } else if current_char == '(' {
            self.add_token(TokenType::LEFTPARENTHESIS);
        } else if current_char == ')' {
            self.add_token(TokenType::RIGHTPARENTHESIS);
        } else if current_char == '[' {
            self.add_token(TokenType::LEFTSQUAREBRACKET);
        } else if current_char == ']' {
            self.add_token(TokenType::RIGHTSQUAREBRACKET);
        } else if current_char == ':' {
            if next_char == '=' {
                self.add_token(TokenType::ASSIGN);
                look_ahead_addition = 1;
            } else {
                self.add_token(TokenType::COLON);
            }
        } else if current_char == '>' {
            if next_char == '=' {
                self.add_token(TokenType::GREATERTHANOREQUAL);
                look_ahead_addition = 1;
            } else {
                self.add_token(TokenType::GREATERTHAN);
            }
        } else if current_char == '<' {
            if next_char == '>' {
                self.add_token(TokenType::NOTEQUAL);
                look_ahead_addition = 1;
            } else if next_char == '=' {
                self.add_token(TokenType::LESSTHANOREQUAL);
                look_ahead_addition = 1;
            } else {
                self.add_token(TokenType::LESSTHAN);
            }
        } else {
            let mut msg = "Unknown char '".to_owned();
            msg.push(current_char);
            msg.push('\'');
            return Err(LexError { msg, line_num: self.line_num });
        }
        Ok(look_ahead_addition)
    }

    /// Finishes the token in the making where the line ends.
    pub fn finish_line(&mut self, end_state: MachineState, str_buffer: &str) -> (result: Result<
        (),
        LexError,
    >)
        ensures
            final(self)@ == finish_state(old(self)@, end_state, str_buffer@).session,
            result_of(finish_state(old(self)@, end_state, str_buffer@), result),
    {
        match end_state {
            MachineState::CharMid | MachineState::CharBeginning => {
                return Err(LexError::new("No closing ' in CHARLITERAL", self.line_num));
            },
            MachineState::String => {
                return Err(LexError::new("No closing \" in STRINGLITERAL", self.line_num));
            },
            _ => self.add_token_from_state(end_state, str_buffer),
        }
        Ok(())
    }

    /// Scans one line, given as its characters.
    fn lex_chars(&mut self, line_chars: &Vec<char>) -> (result: Result<(), LexError>)
        ensures
            final(self)@ == scan_line(old(self)@, line_chars@).session,
            result_of(scan_line(old(self)@, line_chars@), result),
    {
        let mut str_buffer = String::new();
        let mut indentation = Indentation::Counting { level: 0, spare: 0 };
        let mut current_state = MachineState::Start;
        let mut line_pos: usize = 0;
        while line_pos < line_chars.len()
            invariant
                line_pos <= line_chars.len(),
                indentation.wf(),
                indentation matches Indentation::Counting { level, .. } ==> level <= line_pos,
                (current_state == MachineState::Start) == (str_buffer@.len() == 0),
                self@.line_num == old(self)@.line_num,
                scan_from(Scan::begin(old(self)@), line_chars@, 0) == scan_from(
                    Scan {
                        session: self@,
                        indent: indentation.columns(),
                        machine: current_state,
                        buffer: str_buffer@,
                    },
                    line_chars@,
                    line_pos as int,
                ),
            decreases line_chars.len() - line_pos,
        {
            let current_char = line_chars[line_pos];
            let next_char = peak(line_chars, line_pos);
            let ghost step = offer(
                Scan {
                    session: self@,
                    indent: indentation.columns(),
                    machine: current_state,
                    buffer: str_buffer@,
                },
                current_char,
                next_char,
            );
            let in_comment = match self.check_comment(current_char) {
                Ok(taken) => taken,
                Err(error) => {
                    return Err(error);
                },
            };
            let mut look_ahead: usize = 0;
            if !in_comment {
                indentation = self.count_indentation(indentation, current_char);
                if let Indentation::Resolved = indentation {
                    let prev_state = current_state;
                    current_state = match self.update_machine(current_state, current_char) {
                        Ok(state) => state,
                        Err(error) => {
                            return Err(error);
                        },
                    };
                    if current_state != MachineState::Start {
                        str_buffer.push(current_char);
                    } else {
                        self.add_token_from_state(prev_state, str_buffer.as_str());
                        str_buffer = String::new();
                        if prev_state != MachineState::CharMid && prev_state
                            != MachineState::String {
                            look_ahead = match self.check_character(current_char, next_char) {
                                Ok(taken) => taken,
                                Err(error) => {
                                    return Err(error);
                                },
                            };
                        }
                    }
                }
            }
            assert(step.result == Ok::<bool, Fault>(look_ahead == 1));
            assert(step.scan == Scan {
                session: self@,
                indent: indentation.columns(),
                machine: current_state,
                buffer: str_buffer@,
            });
            line_pos = line_pos + 1 + look_ahead;
        }
        if self.comment_state == CommentState::Done {
            self.comment_state = CommentState::NoComment;
        }
        match self.finish_line(current_state, str_buffer.as_str()) {
            Ok(()) => {},
            Err(error) => {
                return Err(error);
            },
        }
        self.add_token(TokenType::ENDOFLINE);
        Ok(())
    }

    /// Scans one line in the session: the tokens of the line are added to
    /// those made so far, under the line number that the session holds. At a
    /// fault the scan stops with the tokens made before it.
    pub fn lex_line(&mut self, lstr: &str) -> (result: Result<(), LexError>)
        ensures
            final(self)@ == scan_line(old(self)@, lstr@).session,
            result_of(scan_line(old(self)@, lstr@), result),
    {
        let line_chars = chars_of(lstr);
        self.lex_chars(&line_chars)
    }

    /// Scans a text: its physical lines, counted from 1, in a fresh session.
    /// The first fault ends the scan and is all that is returned.
    pub fn lex(file_string: &str) -> (result: Result<Lexer, LexError>)
        requires
            lines_of(file_string@).len() <= u32::MAX,
        ensures
            lexed(file_string@, result),
    {
        let lines = split_lines(file_string);
        let mut lexer = Lexer::new();
        let mut done: usize = 0;
        assert(line_views(lines@).skip(0) == line_views(lines@));
        while done < lines.len()
            invariant
                done <= lines.len(),
                lines.len() <= u32::MAX,
                lexer@.line_num == done,
                scan_text(file_string@) == scan_lines(lexer@, line_views(lines@).skip(done as int)),
            decreases lines.len() - done,
        {
            let ghost rest = line_views(lines@).skip(done as int);
            assert(rest[0] == lines@[done as int]@);
            assert(rest.drop_first() == line_views(lines@).skip(done + 1));
            proof {
                lemma_scan_line_keeps_line_num(lexer@.next_line(), rest[0]);
            }
            lexer.line_num = lexer.line_num + 1;
            match lexer.lex_chars(&lines[done]) {
                Ok(()) => {},
                Err(error) => {
                    return Err(error);
                },
            }
            done = done + 1;
        }
        Ok(lexer)
    }

    /// The tokens made so far as a dump: one printed line for each line of the
    /// text, its tokens set apart by spaces.
    pub fn dump(&self) -> (shown: String)
        ensures
            shown@ == render_tokens(self@.tokens),
    {
        let mut shown = String::new();
        let mut i: usize = 0;
        assert(token_views(self.tokens@).take(0) == Seq::<TokenView>::empty());
        while i < self.tokens.len()
            invariant
                i <= self.tokens.len(),
                shown@ == render_tokens(token_views(self.tokens@).take(i as int)),
            decreases self.tokens.len() - i,
        {
            let token = &self.tokens[i];
            let ghost shown_before = shown@;
            let ghost upto = token_views(self.tokens@).take(i + 1);
            assert(upto.drop_last() == token_views(self.tokens@).take(i as int));
            assert(upto.last() == token@);
            shown.append(token.to_string().as_str());
            if token.token_type() == TokenType::ENDOFLINE {
                shown.push('\n');
            } else {
                shown.push(' ');
            }
            assert(shown@ =~= render_tokens(upto));
            i = i + 1;
        }
        assert(token_views(self.tokens@).take(i as int) == token_views(self.tokens@));
        shown
    }

    /// The tokens made so far, as a copy.
    pub fn tokens(&self) -> (tokens: Vec<Token>)
        ensures
            token_views(tokens@) == self@.tokens,
    {
        let tokens = self.tokens.clone();
        assert(token_views(tokens@) =~= token_views(self.tokens@));
        tokens
    }
}

} // verus!
