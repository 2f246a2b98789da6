//! What scanning a text means: the state machines of [`crate::machine`]
//! composed into the scan of one character, of one line and of a whole text.

use crate::machine::{
    bare_token, closes_literal, column_width, comment_at_line_end, comment_step, finished_token, indent_tokens,
    indents, level_of, machine_step, peek, symbol_step, CommentState, Fault, MachineState,
};
use crate::text::lines_of;
use crate::{TokenType, TokenView};
use vstd::prelude::*;

verus! {

/// The state of a scan between two lines.
pub struct Session {
    /// The tokens made so far.
    pub tokens: Seq<TokenView>,
    /// The indentation level of the last line whose indentation was resolved.
    pub level: nat,
    /// Whether a comment is open.
    pub comment: CommentState,
    /// The number of the line in hand; lines count from 1.
    pub line_num: nat,
}

/// The state of a scan within a line.
pub struct Scan {
    pub session: Session,
    /// The columns of indentation counted so far on this line, or `None` once
    /// the first character behind the margin has been seen.
    pub indent: Option<nat>,
    /// What the classifier is in the middle of.
    pub machine: MachineState,
    /// The characters gathered for the token in the making.
    pub buffer: Seq<char>,
}

/// How the scan of a line or of a text ended: the state it reached, and the
/// fault that stopped it, if one did.
pub struct Outcome {
    pub session: Session,
    pub fault: Option<Fault>,
}

/// What offering one character to the scan did: the state reached, and either
/// whether the character after it was taken too, or the fault.
pub struct Step {
    pub scan: Scan,
    pub result: Result<bool, Fault>,
}

impl Session {
    /// The state before the first line of a text.
    pub open spec fn initial() -> Session {
        Session { tokens: Seq::empty(), level: 0, comment: CommentState::NoComment, line_num: 0 }
    }

    /// The session with more tokens at the end of its sequence.
    pub open spec fn emit(self, tokens: Seq<TokenView>) -> Session {
        Session { tokens: self.tokens + tokens, ..self }
    }

    /// The session with one more token, if there is one.
    pub open spec fn emit_one(self, token: Option<TokenView>) -> Session {
        match token {
            Some(token) => Session { tokens: self.tokens.push(token), ..self },
            None => self,
        }
    }

    /// The session on the next line.
    pub open spec fn next_line(self) -> Session {
        Session { line_num: self.line_num + 1, ..self }
    }
}

impl Scan {
    /// The state at the start of a line: nothing counted, nothing gathered.
    pub open spec fn begin(session: Session) -> Scan {
        Scan { session, indent: Some(0), machine: MachineState::Start, buffer: Seq::empty() }
    }
}

/// The indentation tracker. `indent` holds the columns counted so far on the
/// line, or `None` once its indentation is resolved. While the margin lasts,
/// tabs and spaces are counted. The first other character resolves the
/// indentation: the change of level against the last resolved line becomes
/// `INDENT` or `DEDENT` tokens.
pub open spec fn indent_step(session: Session, indent: Option<nat>, c: char) -> (
    Session,
    Option<nat>,
) {
    match indent {
        None => (session, None),
        Some(columns) => if indents(c) {
            (session, Some(columns + column_width(c)))
        } else {
            let level = level_of(columns);
            (
                Session {
                    level,
                    ..session.emit(indent_tokens(session.level, level, session.line_num))
                },
                None,
            )
        },
    }
}

/// The scanner of operators, applied to a character that the classifier has
/// no use for: the session with the token, if the character makes one, and
/// whether the character after it was taken too.
pub open spec fn symbol_scan(session: Session, c: char, next: char) -> (
    Session,
    Result<bool, Fault>,
) {
    match symbol_step(c, next) {
        Err(fault) => (session, Err(fault)),
        Ok(symbol) => (
            session.emit_one(
                match symbol.kind {
                    Some(kind) => Some(bare_token(kind, session.line_num)),
                    None => None,
                },
            ),
            Ok(symbol.takes_next),
        ),
    }
}

/// The classifier, applied to a character behind the margin and outside any
/// comment. A character that keeps a token going is gathered. One that ends a
/// token has the token made, and goes on to the scanner of operators unless it
/// closes a literal.
pub open spec fn classify(scan: Scan, c: char, next: char) -> Step {
    match machine_step(scan.machine, c) {
        Err(fault) => Step { scan, result: Err(fault) },
        Ok(state) => if state != MachineState::Start {
            Step {
                scan: Scan { machine: state, buffer: scan.buffer.push(c), ..scan },
                result: Ok(false),
            }
        } else {
            let made = scan.session.emit_one(
                finished_token(scan.machine, scan.buffer, scan.session.line_num),
            );
            let (session, result) = if closes_literal(scan.machine) {
                (made, Ok(false))
            } else {
                symbol_scan(made, c, next)
            };
            Step {
                scan: Scan { session, machine: MachineState::Start, buffer: Seq::empty(), ..scan },
                result,
            }
        },
    }
}

/// The scan of one character: it is offered to the comment filter, then, if
/// no comment takes it, to the indentation tracker, then, if it stands behind
/// the margin, to the classifier.
pub open spec fn offer(scan: Scan, c: char, next: char) -> Step {
    match comment_step(scan.session.comment, c) {
        Err(fault) => Step { scan, result: Err(fault) },
        Ok(comment) => {
            let filtered = Session { comment, ..scan.session };
            if comment != CommentState::NoComment {
                Step { scan: Scan { session: filtered, ..scan }, result: Ok(false) }
            } else {
                let (session, indent) = indent_step(filtered, scan.indent, c);
                let counted = Scan { session, indent, ..scan };
                if indent is Some {
                    Step { scan: counted, result: Ok(false) }
                } else {
                    classify(counted, c, next)
                }
            }
        },
    }
}

/// The scan of a line from position `pos` on, up to its end or to the first
/// fault.
pub open spec fn scan_from(scan: Scan, line: Seq<char>, pos: int) -> (Scan, Option<Fault>)
    decreases line.len() - pos,
{
    if pos < 0 || pos >= line.len() {
        (scan, None)
    } else {
        let step = offer(scan, line[pos], peek(line, pos));
        match step.result {
            Err(fault) => (step.scan, Some(fault)),
            Ok(takes_next) => scan_from(
                step.scan,
                line,
                if takes_next {
                    pos + 2
                } else {
                    pos + 1
                },
            ),
        }
    }
}

/// The end of a token in the making where the line ends: an open literal is a
/// fault, a word or a number is made.
pub open spec fn finish_state(session: Session, state: MachineState, buffer: Seq<char>) -> Outcome {
    match state {
        MachineState::String => Outcome { session, fault: Some(Fault::OpenString) },
        MachineState::CharBeginning | MachineState::CharMid => Outcome {
            session,
            fault: Some(Fault::OpenChar),
        },
        _ => Outcome {
            session: session.emit_one(finished_token(state, buffer, session.line_num)),
            fault: None,
        },
    }
}

/// The end of a line. A ban on code behind a closed comment ends here. Then
/// the token in the making is finished, and the line gets its `ENDOFLINE`.
pub open spec fn finish_line(scan: Scan) -> Outcome {
    let finished = finish_state(
        Session { comment: comment_at_line_end(scan.session.comment), ..scan.session },
        scan.machine,
        scan.buffer,
    );
    if finished.fault is Some {
        finished
    } else {
        Outcome {
            session: finished.session.emit_one(
                Some(bare_token(TokenType::ENDOFLINE, scan.session.line_num)),
            ),
            fault: None,
        }
    }
}

/// The scan of one line in a session.
pub open spec fn scan_line(session: Session, line: Seq<char>) -> Outcome {
    let (scan, fault) = scan_from(Scan::begin(session), line, 0);
    match fault {
        Some(fault) => Outcome { session: scan.session, fault: Some(fault) },
        None => finish_line(scan),
    }
}

/// The scan of some lines, one after the other, up to the first fault. Each
/// line has the number after that of the line before it.
pub open spec fn scan_lines(session: Session, lines: Seq<Seq<char>>) -> Outcome
    decreases lines.len(),
{
    if lines.len() == 0 {
        Outcome { session, fault: None }
    } else {
        let first = scan_line(session.next_line(), lines[0]);
        if first.fault is Some {
            first
        } else {
            scan_lines(first.session, lines.drop_first())
        }
    }
}

/// The scan of a text: that of its physical lines in a fresh session.
pub open spec fn scan_text(text: Seq<char>) -> Outcome {
    scan_lines(Session::initial(), lines_of(text))
}

} // verus!

verus! {

/// Scanning within a line leaves the line number as it is.
pub proof fn lemma_scan_from_keeps_line_num(scan: Scan, line: Seq<char>, pos: int)
    ensures
        scan_from(scan, line, pos).0.session.line_num == scan.session.line_num,
    decreases line.len() - pos,
{
    if 0 <= pos < line.len() {
        let step = offer(scan, line[pos], peek(line, pos));
        match step.result {
            Err(fault) => {},
            Ok(takes_next) => {
                lemma_scan_from_keeps_line_num(
                    step.scan,
                    line,
                    if takes_next {
                        pos + 2
                    } else {
                        pos + 1
                    },
                );
            },
        }
    }
}

/// The scan of a line leaves the line number as it is.
pub proof fn lemma_scan_line_keeps_line_num(session: Session, line: Seq<char>)
    ensures
        scan_line(session, line).session.line_num == session.line_num,
{
    lemma_scan_from_keeps_line_num(Scan::begin(session), line, 0);
}

} // verus!
