//! What holds of every scan: the shape of the tokens of a line, the count of
//! `ENDOFLINE` tokens, and how margins, words and comments are scanned.

use crate::chars::{alphabetic, ascii_alphanumeric, blank};
use crate::lexer::{lexed, LexError, Lexer};
use crate::machine::{
    bare_token, columns_of, indent_tokens, indents, level_of, peek, repeated, word_token,
    CommentState, Fault, MachineState,
};
use crate::scan::{
    finish_line, indent_step, offer, scan_from, scan_line, scan_lines, scan_text, Outcome, Scan,
    Session,
};
use crate::text::{
    first_line_feed, lemma_first_line_feed, lemma_first_line_feed_bound, lemma_lines_and_line_feeds,
    lemma_lines_of_joined, lemma_lines_of_last, line_feeds, lines_of, without_carriage_return,
};
use crate::{keyword_kind, shows_lexeme, TokenType, TokenView};
use vstd::prelude::*;

verus! {

/// Whether a kind is one of the three that mark the structure of a text.
pub open spec fn structural(kind: TokenType) -> bool {
    kind == TokenType::INDENT || kind == TokenType::DEDENT || kind == TokenType::ENDOFLINE
}

/// Whether all of `tokens` stand on line `line` and none is structural.
pub open spec fn all_content(tokens: Seq<TokenView>, line: nat) -> bool {
    forall|i: int|
        0 <= i < tokens.len() ==> (#[trigger] tokens[i]).line == line && !structural(
            tokens[i].kind,
        )
}

/// No word is given a structural kind by the keyword table.
pub proof fn lemma_keyword_kind_is_content(word: Seq<char>)
    ensures
        !structural(keyword_kind(word)),
{
}

/// What one character adds to the tokens: the tokens for the change of level
/// where the character resolves the indentation, then at most two tokens of
/// content. The level moves only where the indentation is resolved.
proof fn lemma_offer_shape(scan: Scan, c: char, next: char) -> (content: Seq<TokenView>)
    ensures
        ({
            let after = offer(scan, c, next).scan;
            &&& after.session.line_num == scan.session.line_num
            &&& after.session.tokens == scan.session.tokens + indent_tokens(
                scan.session.level,
                after.session.level,
                scan.session.line_num,
            ) + content
            &&& all_content(content, scan.session.line_num)
            &&& scan.indent is None ==> after.indent is None && after.session.level
                == scan.session.level
            &&& after.indent is Some ==> after.session.level == scan.session.level
        }),
{
    let after = offer(scan, c, next).scan;
    let n = scan.session.tokens.len() as int;
    let line = scan.session.line_num;
    let shift = indent_tokens(scan.session.level, after.session.level, line);
    lemma_keyword_kind_is_content(scan.buffer);
    assert(after.session.tokens.len() >= n + shift.len());
    assert(after.session.tokens.take(n + shift.len()) =~= scan.session.tokens + shift);
    let content = after.session.tokens.skip(n + shift.len());
    assert(after.session.tokens =~= scan.session.tokens + shift + content);
    content
}

/// The tokens of the rest of a line: the tokens for the change of level, where
/// the indentation is resolved on it, then tokens of content.
proof fn lemma_scan_from_shape(scan: Scan, line: Seq<char>, pos: int) -> (content: Seq<TokenView>)
    ensures
        ({
            let after = scan_from(scan, line, pos).0;
            &&& after.session.line_num == scan.session.line_num
            &&& after.session.tokens == scan.session.tokens + indent_tokens(
                scan.session.level,
                after.session.level,
                scan.session.line_num,
            ) + content
            &&& all_content(content, scan.session.line_num)
            &&& scan.indent is None ==> after.indent is None && after.session.level
                == scan.session.level
            &&& after.indent is Some ==> after.session.level == scan.session.level
        }),
    decreases line.len() - pos,
{
    let number = scan.session.line_num;
    if pos < 0 || pos >= line.len() {
        let content = Seq::<TokenView>::empty();
        assert(scan.session.tokens =~= scan.session.tokens + indent_tokens(
            scan.session.level,
            scan.session.level,
            number,
        ) + content);
        content
    } else {
        let step = offer(scan, line[pos], peek(line, pos));
        let first = lemma_offer_shape(scan, line[pos], peek(line, pos));
        match step.result {
            Err(fault) => first,
            Ok(takes_next) => {
                let next_pos = if takes_next {
                    pos + 2
                } else {
                    pos + 1
                };
                let rest = lemma_scan_from_shape(step.scan, line, next_pos);
                let after = scan_from(step.scan, line, next_pos).0;
                let content = first + rest;
                if step.scan.indent is Some {
                    assert(first =~= Seq::<TokenView>::empty()) by {
                        lemma_counting_adds_nothing(scan, line[pos], peek(line, pos));
                    }
                    assert(after.session.tokens =~= scan.session.tokens + indent_tokens(
                        scan.session.level,
                        after.session.level,
                        number,
                    ) + content);
                } else {
                    assert(indent_tokens(step.scan.session.level, after.session.level, number)
                        =~= Seq::<TokenView>::empty());
                    assert(after.session.tokens =~= scan.session.tokens + indent_tokens(
                        scan.session.level,
                        after.session.level,
                        number,
                    ) + content);
                }
                content
            },
        }
    }
}

/// A character after which the indentation is still being counted makes no
/// token.
proof fn lemma_counting_adds_nothing(scan: Scan, c: char, next: char)
    requires
        offer(scan, c, next).scan.indent is Some,
    ensures
        offer(scan, c, next).scan.session.tokens == scan.session.tokens,
        offer(scan, c, next).scan.session.level == scan.session.level,
        scan.indent is Some,
{
    lemma_keyword_kind_is_content(scan.buffer);
}

/// The shape of a line's tokens. What the scan of a line adds to the tokens
/// made before it is, in this order: the `INDENT` or `DEDENT` tokens for the
/// change of level, if the line resolves its indentation; tokens of content,
/// which all bear the number of the line; and, unless a fault stopped the scan,
/// one `ENDOFLINE` with that number. So `INDENT` and `DEDENT` stand before the
/// first token of content, and `ENDOFLINE` stands last.
pub proof fn lemma_line_shape(session: Session, line: Seq<char>) -> (content: Seq<TokenView>)
    ensures
        ({
            let after = scan_line(session, line);
            let made = session.tokens + indent_tokens(
                session.level,
                after.session.level,
                session.line_num,
            ) + content;
            &&& all_content(content, session.line_num)
            &&& after.session.line_num == session.line_num
            &&& after.fault is Some ==> after.session.tokens == made
            &&& after.fault is None ==> after.session.tokens == made.push(
                bare_token(TokenType::ENDOFLINE, session.line_num),
            )
        }),
{
    let begin = Scan::begin(session);
    let (scan, fault) = scan_from(begin, line, 0);
    let scanned = lemma_scan_from_shape(begin, line, 0);
    match fault {
        Some(fault) => scanned,
        None => {
            lemma_keyword_kind_is_content(scan.buffer);
            let after = finish_line(scan);
            if after.fault is Some {
                scanned
            } else {
                let made = session.tokens + indent_tokens(
                    session.level,
                    after.session.level,
                    session.line_num,
                );
                let n = made.len() as int;
                assert(after.session.tokens.len() > n + scanned.len());
                let content = after.session.tokens.subrange(n, after.session.tokens.len() - 1);
                assert(content.len() >= scanned.len());
                assert(after.session.tokens =~= (made + content).push(
                    bare_token(TokenType::ENDOFLINE, session.line_num),
                ));
                assert forall|i: int| 0 <= i < content.len() implies (#[trigger] content[i]).line
                    == session.line_num && !structural(content[i].kind) by {
                    if i < scanned.len() {
                        assert(content[i] == scanned[i]);
                    }
                }
                content
            }
        },
    }
}

/// The numbers of the lines that the `ENDOFLINE` tokens among `tokens` end, in
/// the order of the tokens.
pub open spec fn line_ends(tokens: Seq<TokenView>) -> Seq<nat>
    decreases tokens.len(),
{
    if tokens.len() == 0 {
        Seq::empty()
    } else if tokens.last().kind == TokenType::ENDOFLINE {
        line_ends(tokens.drop_last()).push(tokens.last().line)
    } else {
        line_ends(tokens.drop_last())
    }
}

/// The numbers `first`, `first + 1`, ... of `count` lines one after the other.
pub open spec fn line_numbers(first: nat, count: nat) -> Seq<nat> {
    Seq::new(count, |i: int| (first + i) as nat)
}

/// The line ends of two runs of tokens, one after the other.
proof fn lemma_line_ends_add(front: Seq<TokenView>, back: Seq<TokenView>)
    ensures
        line_ends(front + back) == line_ends(front) + line_ends(back),
    decreases back.len(),
{
    if back.len() == 0 {
        assert(front + back =~= front);
        assert(line_ends(front) + line_ends(back) =~= line_ends(front));
    } else {
        lemma_line_ends_add(front, back.drop_last());
        assert((front + back).drop_last() =~= front + back.drop_last());
        assert(line_ends(front) + line_ends(back.drop_last()).push(back.last().line) =~= (
        line_ends(front) + line_ends(back.drop_last())).push(back.last().line));
    }
}

/// Tokens none of which is an `ENDOFLINE` end no line.
proof fn lemma_line_ends_none(tokens: Seq<TokenView>)
    requires
        forall|i: int| 0 <= i < tokens.len() ==> (#[trigger] tokens[i]).kind != TokenType::ENDOFLINE,
    ensures
        line_ends(tokens) == Seq::<nat>::empty(),
    decreases tokens.len(),
{
    if tokens.len() > 0 {
        assert(tokens.last() == tokens[tokens.len() - 1]);
        lemma_line_ends_none(tokens.drop_last());
    }
}

/// A line that is scanned without a fault ends exactly one line: its own.
pub proof fn lemma_line_ends_once(session: Session, line: Seq<char>)
    requires
        scan_line(session, line).fault is None,
    ensures
        line_ends(scan_line(session, line).session.tokens) == line_ends(session.tokens).push(
            session.line_num,
        ),
{
    let after = scan_line(session, line);
    let number = session.line_num;
    let content = lemma_line_shape(session, line);
    let shift = indent_tokens(session.level, after.session.level, number);
    let end = seq![bare_token(TokenType::ENDOFLINE, number)];
    assert(after.session.tokens =~= session.tokens + (shift + content + end));
    lemma_line_ends_add(session.tokens, shift + content + end);
    lemma_line_ends_add(shift + content, end);
    lemma_line_ends_add(shift, content);
    lemma_line_ends_none(shift);
    lemma_line_ends_none(content);
    assert(end.drop_last() =~= Seq::<TokenView>::empty());
    assert(line_ends(end.drop_last()) =~= Seq::<nat>::empty());
    assert(end.last().kind == TokenType::ENDOFLINE && end.last().line == number);
    assert(line_ends(end) =~= seq![number]);
    assert(line_ends(session.tokens) + (Seq::<nat>::empty() + Seq::<nat>::empty() + seq![number])
        =~= line_ends(session.tokens).push(number));
}

/// Lines that are scanned without a fault end one line each, in their order.
pub proof fn lemma_lines_end_once(session: Session, lines: Seq<Seq<char>>)
    requires
        scan_lines(session, lines).fault is None,
    ensures
        scan_lines(session, lines).session.line_num == session.line_num + lines.len(),
        line_ends(scan_lines(session, lines).session.tokens) == line_ends(session.tokens)
            + line_numbers(session.line_num + 1, lines.len()),
    decreases lines.len(),
{
    if lines.len() == 0 {
        assert(line_ends(session.tokens) + line_numbers(session.line_num + 1, 0) =~= line_ends(
            session.tokens,
        ));
    } else {
        let first = scan_line(session.next_line(), lines[0]);
        lemma_line_ends_once(session.next_line(), lines[0]);
        lemma_line_shape(session.next_line(), lines[0]);
        lemma_lines_end_once(first.session, lines.drop_first());
        assert(line_ends(session.tokens).push(session.line_num + 1) + line_numbers(
            session.line_num + 2,
            (lines.len() - 1) as nat,
        ) =~= line_ends(session.tokens) + line_numbers(session.line_num + 1, lines.len()));
    }
}

/// One `ENDOFLINE` for each line. The tokens of a text that is scanned without
/// a fault hold exactly one `ENDOFLINE` for each physical line of the text, and
/// these stand in the order of the lines: the first bears the number 1, the
/// next the number 2, and so on up to the number of lines.
pub proof fn lemma_one_end_of_line_per_line(text: Seq<char>)
    requires
        scan_text(text).fault is None,
    ensures
        line_ends(scan_text(text).session.tokens) == line_numbers(1, lines_of(text).len()),
        scan_text(text).session.line_num == lines_of(text).len(),
{
    lemma_lines_end_once(Session::initial(), lines_of(text));
    assert(Seq::<nat>::empty() + line_numbers(1, lines_of(text).len()) =~= line_numbers(
        1,
        lines_of(text).len(),
    ));
}

/// The state of a scan that has counted `columns` columns of margin and seen
/// nothing else of the line.
pub open spec fn in_margin(session: Session, columns: nat) -> Scan {
    Scan { session, indent: Some(columns), machine: MachineState::Start, buffer: Seq::empty() }
}

/// Outside a comment, the scan of a run of tabs and spaces at the start of a
/// line only counts columns.
proof fn lemma_scan_margin(session: Session, line: Seq<char>, k: int)
    requires
        session.comment == CommentState::NoComment,
        0 <= k <= line.len(),
        forall|i: int| 0 <= i < k ==> indents(#[trigger] line[i]),
    ensures
        scan_from(Scan::begin(session), line, 0) == scan_from(
            in_margin(session, columns_of(line.take(k))),
            line,
            k,
        ),
    decreases k,
{
    if k == 0 {
        assert(line.take(0) =~= Seq::<char>::empty());
    } else {
        lemma_scan_margin(session, line, k - 1);
        assert(line.take(k).drop_last() =~= line.take(k - 1));
        assert(line.take(k).last() == line[k - 1]);
        let before = in_margin(session, columns_of(line.take(k - 1)));
        let step = offer(before, line[k - 1], peek(line, k - 1));
        assert(step.scan == in_margin(session, columns_of(line.take(k))));
    }
}

/// Indentation round trip. Take a line that begins, outside any comment, with
/// a margin of tabs and spaces, followed by a character that is neither of
/// these nor opens a comment. A tab counts four columns, a space one, and the
/// level of the line is the number of whole groups of four columns in its
/// margin. Then the tokens of the line begin with one `INDENT` for each level
/// gained, or one `DEDENT` for each level lost, against the line that last
/// resolved its indentation; tokens of content follow, and the line's level is
/// what the next line is held against. So a line of level `n` after a line of
/// level 0 begins with exactly `n` `INDENT` tokens, and a line of level 0 after
/// it begins with exactly `n` `DEDENT` tokens.
pub proof fn lemma_indentation_round_trip(session: Session, margin: Seq<char>, rest: Seq<char>) -> (content:
    Seq<TokenView>)
    requires
        session.comment == CommentState::NoComment,
        forall|i: int| 0 <= i < margin.len() ==> indents(#[trigger] margin[i]),
        rest.len() > 0,
        !indents(rest[0]),
        rest[0] != '{',
    ensures
        ({
            let after = scan_line(session, margin + rest);
            let level = level_of(columns_of(margin));
            let shift = indent_tokens(session.level, level, session.line_num);
            let made = session.tokens + shift + content;
            &&& after.session.level == level
            &&& all_content(content, session.line_num)
            &&& after.fault is Some ==> after.session.tokens == made
            &&& after.fault is None ==> after.session.tokens == made.push(
                bare_token(TokenType::ENDOFLINE, session.line_num),
            )
            &&& session.level == 0 ==> shift == repeated(
                bare_token(TokenType::INDENT, session.line_num),
                level,
            )
            &&& level == 0 ==> shift == repeated(
                bare_token(TokenType::DEDENT, session.line_num),
                session.level,
            )
        }),
{
    let line = margin + rest;
    let m = margin.len() as int;
    assert(line.take(m) =~= margin);
    assert forall|i: int| 0 <= i < m implies indents(#[trigger] line[i]) by {
        assert(line[i] == margin[i]);
    }
    lemma_scan_margin(session, line, m);
    let counted = in_margin(session, columns_of(margin));
    assert(line[m] == rest[0]);
    let step = offer(counted, line[m], peek(line, m));
    lemma_keyword_kind_is_content(counted.buffer);
    assert(step.scan.indent is None);
    assert(step.scan.session.level == level_of(columns_of(margin)));
    match step.result {
        Err(fault) => {},
        Ok(takes_next) => {
            let next_pos = if takes_next {
                m + 2
            } else {
                m + 1
            };
            lemma_scan_from_shape(step.scan, line, next_pos);
        },
    }
    lemma_line_shape(session, line)
}

/// Inside a comment, characters other than `}` are dropped: the scan of the
/// rest of a line that holds no `}` changes nothing.
proof fn lemma_scan_in_comment(scan: Scan, line: Seq<char>, pos: int)
    requires
        scan.session.comment == CommentState::IsComment,
        0 <= pos,
        forall|i: int| pos <= i < line.len() ==> #[trigger] line[i] != '}',
    ensures
        scan_from(scan, line, pos) == (scan, None::<Fault>),
    decreases line.len() - pos,
{
    if pos < line.len() {
        let step = offer(scan, line[pos], peek(line, pos));
        assert(step.scan == scan);
        lemma_scan_in_comment(scan, line, pos + 1);
    }
}

/// Behind a closed comment, whitespace is dropped: the scan of the rest of a
/// line that holds only whitespace changes nothing.
proof fn lemma_scan_behind_comment(scan: Scan, line: Seq<char>, pos: int)
    requires
        scan.session.comment == CommentState::Done,
        0 <= pos,
        forall|i: int| pos <= i < line.len() ==> blank(#[trigger] line[i]),
    ensures
        scan_from(scan, line, pos) == (scan, None::<Fault>),
    decreases line.len() - pos,
{
    if pos < line.len() {
        let step = offer(scan, line[pos], peek(line, pos));
        assert(step.scan == scan);
        lemma_scan_behind_comment(scan, line, pos + 1);
    }
}

/// A line inside a comment. Where a comment is open at the start of a line
/// and the line holds no `}`, the line makes no token but its `ENDOFLINE`, and
/// the comment is still open after it.
pub proof fn lemma_line_inside_comment(session: Session, line: Seq<char>)
    requires
        session.comment == CommentState::IsComment,
        forall|i: int| 0 <= i < line.len() ==> #[trigger] line[i] != '}',
    ensures
        scan_line(session, line) == (Outcome {
            session: session.emit_one(
                Some(bare_token(TokenType::ENDOFLINE, session.line_num)),
            ),
            fault: None,
        }),
{
    lemma_scan_in_comment(Scan::begin(session), line, 0);
}

/// A line that opens a comment. Where no comment is open and a line begins
/// with `{` and holds no `}`, the line makes no token but its `ENDOFLINE`, and
/// the comment is open after it.
pub proof fn lemma_line_opens_comment(session: Session, line: Seq<char>)
    requires
        session.comment == CommentState::NoComment,
        line.len() > 0,
        line[0] == '{',
        forall|i: int| 0 <= i < line.len() ==> #[trigger] line[i] != '}',
    ensures
        scan_line(session, line) == (Outcome {
            session: Session { comment: CommentState::IsComment, ..session }.emit_one(
                Some(bare_token(TokenType::ENDOFLINE, session.line_num)),
            ),
            fault: None,
        }),
{
    let begin = Scan::begin(session);
    let opened = Scan {
        session: Session { comment: CommentState::IsComment, ..session },
        ..begin
    };
    assert(offer(begin, line[0], peek(line, 0)).scan == opened);
    lemma_scan_in_comment(opened, line, 1);
}

/// The line that closes a comment. Where a comment is open at the start of a
/// line, the first `}` of the line closes it. If only whitespace follows the
/// `}`, the line makes no token but its `ENDOFLINE`, and no comment is open
/// after it: the next line is scanned as code.
pub proof fn lemma_line_closes_comment(session: Session, body: Seq<char>, trail: Seq<char>)
    requires
        session.comment == CommentState::IsComment,
        forall|i: int| 0 <= i < body.len() ==> #[trigger] body[i] != '}',
        forall|i: int| 0 <= i < trail.len() ==> blank(#[trigger] trail[i]),
    ensures
        scan_line(session, body + seq!['}'] + trail) == (Outcome {
            session: Session { comment: CommentState::NoComment, ..session }.emit_one(
                Some(bare_token(TokenType::ENDOFLINE, session.line_num)),
            ),
            fault: None,
        }),
{
    let line = body + seq!['}'] + trail;
    let k = body.len() as int;
    let begin = Scan::begin(session);
    lemma_scan_to_closing(begin, line, 0, k);
    assert(line[k] == '}');
    let closed = Scan { session: Session { comment: CommentState::Done, ..session }, ..begin };
    assert(offer(begin, line[k], peek(line, k)).scan == closed);
    assert forall|i: int| k + 1 <= i < line.len() implies blank(#[trigger] line[i]) by {
        assert(line[i] == trail[i - k - 1]);
    }
    lemma_scan_behind_comment(closed, line, k + 1);
}

/// Inside a comment, the scan of a line reaches the first `}` unchanged.
proof fn lemma_scan_to_closing(scan: Scan, line: Seq<char>, pos: int, close: int)
    requires
        scan.session.comment == CommentState::IsComment,
        0 <= pos <= close < line.len(),
        forall|i: int| pos <= i < close ==> #[trigger] line[i] != '}',
    ensures
        scan_from(scan, line, pos) == scan_from(scan, line, close),
    decreases close - pos,
{
    if pos < close {
        let step = offer(scan, line[pos], peek(line, pos));
        assert(step.scan == scan);
        lemma_scan_to_closing(scan, line, pos + 1, close);
    }
}

/// Code behind a comment. Where a comment is open at the start of a line and
/// the first `}` of the line is followed, after any whitespace, by a character
/// that is no whitespace, the scan stops there with a fault and the line makes
/// no token.
pub proof fn lemma_code_after_comment(
    session: Session,
    body: Seq<char>,
    trail: Seq<char>,
    code: Seq<char>,
)
    requires
        session.comment == CommentState::IsComment,
        forall|i: int| 0 <= i < body.len() ==> #[trigger] body[i] != '}',
        forall|i: int| 0 <= i < trail.len() ==> blank(#[trigger] trail[i]),
        code.len() > 0,
        !blank(code[0]),
    ensures
        scan_line(session, body + seq!['}'] + trail + code) == (Outcome {
            session: Session { comment: CommentState::Done, ..session },
            fault: Some(Fault::AfterComment),
        }),
{
    let line = body + seq!['}'] + trail + code;
    let k = body.len() as int;
    let t = k + 1 + trail.len();
    let begin = Scan::begin(session);
    assert forall|i: int| 0 <= i < k implies #[trigger] line[i] != '}' by {
        assert(line[i] == body[i]);
    }
    lemma_scan_to_closing(begin, line, 0, k);
    assert(line[k] == '}');
    let closed = Scan { session: Session { comment: CommentState::Done, ..session }, ..begin };
    assert(offer(begin, line[k], peek(line, k)).scan == closed);
    assert forall|i: int| k + 1 <= i < t implies blank(#[trigger] line[i]) by {
        assert(line[i] == trail[i - k - 1]);
    }
    lemma_scan_to_code(closed, line, k + 1, t);
    assert(line[t] == code[0]);
}

/// The state of a scan that is in the middle of a word, behind the margin.
pub open spec fn in_word(session: Session, buffer: Seq<char>) -> Scan {
    Scan { session, indent: None, machine: MachineState::Word, buffer }
}

/// Outside a comment, ASCII letters and digits keep a word going to the end of
/// the line.
proof fn lemma_scan_word(session: Session, line: Seq<char>, start: int, k: int)
    requires
        session.comment == CommentState::NoComment,
        0 <= start < k <= line.len(),
        forall|i: int| start < i < line.len() ==> ascii_alphanumeric(#[trigger] line[i]),
    ensures
        scan_from(in_word(session, line.subrange(start, k)), line, k) == (
            in_word(session, line.subrange(start, line.len() as int)),
            None::<Fault>,
        ),
    decreases line.len() - k,
{
    if k < line.len() {
        let scan = in_word(session, line.subrange(start, k));
        let step = offer(scan, line[k], peek(line, k));
        assert(line.subrange(start, k).push(line[k]) =~= line.subrange(start, k + 1));
        assert(step.scan == in_word(session, line.subrange(start, k + 1)));
        lemma_scan_word(session, line, start, k + 1);
    }
}

/// Whether `word` begins with an alphabetic character and goes on with ASCII
/// letters and digits: what the scanner takes for one word.
pub open spec fn is_word(word: Seq<char>) -> bool {
    &&& word.len() > 0
    &&& alphabetic(word[0])
    &&& forall|i: int| 1 <= i < word.len() ==> ascii_alphanumeric(#[trigger] word[i])
}

/// A word behind a margin. A line that is a margin of tabs and spaces and then
/// one word, scanned where no comment is open, makes the tokens for the change
/// of level to the level of its margin, the token of the word and `ENDOFLINE`,
/// and leaves that level behind.
pub proof fn lemma_indented_word(session: Session, margin: Seq<char>, word: Seq<char>)
    requires
        session.comment == CommentState::NoComment,
        forall|i: int| 0 <= i < margin.len() ==> indents(#[trigger] margin[i]),
        is_word(word),
    ensures
        scan_line(session, margin + word) == (Outcome {
            session: Session {
                tokens: session.tokens + indent_tokens(
                    session.level,
                    level_of(columns_of(margin)),
                    session.line_num,
                ) + seq![
                    word_token(word, session.line_num),
                    bare_token(TokenType::ENDOFLINE, session.line_num),
                ],
                level: level_of(columns_of(margin)),
                ..session
            },
            fault: None,
        }),
{
    let line = margin + word;
    let m = margin.len() as int;
    let level = level_of(columns_of(margin));
    let shift = indent_tokens(session.level, level, session.line_num);
    assert(line.take(m) =~= margin);
    assert forall|i: int| 0 <= i < m implies indents(#[trigger] line[i]) by {
        assert(line[i] == margin[i]);
    }
    lemma_scan_margin(session, line, m);
    let counted = in_margin(session, columns_of(margin));
    let resolved = Session { tokens: session.tokens + shift, level, ..session };
    assert(line[m] == word[0]);
    let step = offer(counted, line[m], peek(line, m));
    assert(line.subrange(m, m + 1) =~= Seq::<char>::empty().push(word[0]));
    assert(step.scan == in_word(resolved, line.subrange(m, m + 1)));
    assert forall|i: int| m < i < line.len() implies ascii_alphanumeric(#[trigger] line[i]) by {
        assert(line[i] == word[i - m]);
    }
    lemma_scan_word(resolved, line, m, m + 1);
    assert(line.subrange(m, line.len() as int) =~= word);
    assert(scan_line(session, line).session.tokens =~= session.tokens + shift + seq![
        word_token(word, session.line_num),
        bare_token(TokenType::ENDOFLINE, session.line_num),
    ]);
}

/// A word alone on a line. Take a word that begins with an alphabetic
/// character and goes on with ASCII letters and digits, scanned as a line of
/// its own where no comment is open. It makes one token: for a keyword the
/// keyword's kind with no lexeme, for any other word `IDENTIFIER` with the word
/// as its lexeme. The tokens for the change of level to level 0 stand before it
/// and the line's `ENDOFLINE` behind it.
pub proof fn lemma_word_alone_on_line(session: Session, word: Seq<char>)
    requires
        session.comment == CommentState::NoComment,
        word.len() > 0,
        alphabetic(word[0]),
        forall|i: int| 1 <= i < word.len() ==> ascii_alphanumeric(#[trigger] word[i]),
    ensures
        scan_line(session, word) == (Outcome {
            session: Session {
                tokens: session.tokens + indent_tokens(session.level, 0, session.line_num) + seq![
                    word_token(word, session.line_num),
                    bare_token(TokenType::ENDOFLINE, session.line_num),
                ],
                level: 0,
                ..session
            },
            fault: None,
        }),
{
    let margin = Seq::<char>::empty();
    assert(margin + word =~= word);
    lemma_indented_word(session, margin, word);
}

/// A word scanned alone. A text that is one word, beginning with an alphabetic
/// character and going on with ASCII letters and digits, is scanned to two
/// tokens on line 1: the token of the word and `ENDOFLINE`. A keyword gives its
/// kind with no lexeme; any other word gives `IDENTIFIER` with the word as its
/// lexeme.
pub proof fn lemma_word_alone(word: Seq<char>)
    requires
        word.len() > 0,
        alphabetic(word[0]),
        forall|i: int| 1 <= i < word.len() ==> ascii_alphanumeric(#[trigger] word[i]),
    ensures
        scan_text(word) == (Outcome {
            session: Session {
                tokens: seq![word_token(word, 1), bare_token(TokenType::ENDOFLINE, 1)],
                level: 0,
                comment: CommentState::NoComment,
                line_num: 1,
            },
            fault: None,
        }),
        keyword_kind(word) != TokenType::IDENTIFIER ==> word_token(word, 1) == bare_token(
            keyword_kind(word),
            1,
        ),
        keyword_kind(word) == TokenType::IDENTIFIER ==> word_token(word, 1) == (TokenView {
            kind: TokenType::IDENTIFIER,
            lexeme: Some(word),
            line: 1,
        }),
{
    assert forall|j: int| 0 <= j < word.len() implies word[j] != '\n' by {
        if j > 0 {
            assert(ascii_alphanumeric(word[j]));
        }
    }
    lemma_first_line_feed(word, word.len() as int);
    assert(lines_of(word) =~= seq![word]);
    let first = Session::initial().next_line();
    lemma_word_alone_on_line(first, word);
    let after = scan_line(first, word);
    assert(lines_of(word).drop_first() =~= Seq::<Seq<char>>::empty());
    assert(scan_lines(Session::initial(), lines_of(word)) == scan_lines(
        after.session,
        lines_of(word).drop_first(),
    ));
    assert(after.session.tokens =~= seq![word_token(word, 1), bare_token(TokenType::ENDOFLINE, 1)]);
    assert(keyword_kind(word) != TokenType::IDENTIFIER ==> word_token(word, 1) == bare_token(
        keyword_kind(word),
        1,
    ));
}

/// The keyword table is exact: each keyword has its own kind, and `for` stands
/// for `REPEAT`.
pub proof fn lemma_keyword_table()
    ensures
        keyword_kind("if"@) == TokenType::IF,
        keyword_kind("elsif"@) == TokenType::ELSIF,
        keyword_kind("else"@) == TokenType::ELSE,
        keyword_kind("then"@) == TokenType::THEN,
        keyword_kind("while"@) == TokenType::WHILE,
        keyword_kind("for"@) == TokenType::REPEAT,
        keyword_kind("until"@) == TokenType::UNTIL,
        keyword_kind("from"@) == TokenType::FROM,
        keyword_kind("to"@) == TokenType::TO,
        keyword_kind("define"@) == TokenType::DEFINE,
        keyword_kind("var"@) == TokenType::VAR,
        keyword_kind("array"@) == TokenType::ARRAY,
        keyword_kind("of"@) == TokenType::OF,
        keyword_kind("variables"@) == TokenType::VARIABLES,
        keyword_kind("constants"@) == TokenType::CONSTANTS,
        keyword_kind("integer"@) == TokenType::INTEGER,
        keyword_kind("real"@) == TokenType::REAL,
        keyword_kind("boolean"@) == TokenType::BOOLEAN,
        keyword_kind("mod"@) == TokenType::MOD,
{
    reveal_strlit("if");
    assert("if"@.len() == 2 && "if"@[0] == 'i');
    reveal_strlit("elsif");
    assert("elsif"@.len() == 5 && "elsif"@[0] == 'e');
    reveal_strlit("else");
    assert("else"@.len() == 4 && "else"@[0] == 'e');
    reveal_strlit("then");
    assert("then"@.len() == 4 && "then"@[0] == 't');
    reveal_strlit("while");
    assert("while"@.len() == 5 && "while"@[0] == 'w');
    reveal_strlit("for");
    assert("for"@.len() == 3 && "for"@[0] == 'f');
    reveal_strlit("until");
    assert("until"@.len() == 5 && "until"@[0] == 'u');
    reveal_strlit("from");
    assert("from"@.len() == 4 && "from"@[0] == 'f');
    reveal_strlit("to");
    assert("to"@.len() == 2 && "to"@[0] == 't');
    reveal_strlit("define");
    assert("define"@.len() == 6 && "define"@[0] == 'd');
    reveal_strlit("var");
    assert("var"@.len() == 3 && "var"@[0] == 'v');
    reveal_strlit("array");
    assert("array"@.len() == 5 && "array"@[0] == 'a');
    reveal_strlit("of");
    assert("of"@.len() == 2 && "of"@[0] == 'o');
    reveal_strlit("variables");
    assert("variables"@.len() == 9 && "variables"@[0] == 'v');
    reveal_strlit("constants");
    assert("constants"@.len() == 9 && "constants"@[0] == 'c');
    reveal_strlit("integer");
    assert("integer"@.len() == 7 && "integer"@[0] == 'i');
    reveal_strlit("real");
    assert("real"@.len() == 4 && "real"@[0] == 'r');
    reveal_strlit("boolean");
    assert("boolean"@.len() == 7 && "boolean"@[0] == 'b');
    reveal_strlit("mod");
    assert("mod"@.len() == 3 && "mod"@[0] == 'm');
}

/// Scanning is a function of the text. Two scans of the same text come to the
/// same end: either both return a session, and the two hold the same tokens and
/// the same state, or both return an error, with the same message and the same
/// line number.
pub proof fn lemma_same_text_same_tokens(
    text: Seq<char>,
    first: Result<Lexer, LexError>,
    second: Result<Lexer, LexError>,
)
    requires
        lexed(text, first),
        lexed(text, second),
    ensures
        match (first, second) {
            (Ok(one), Ok(other)) => one@ == other@,
            (Err(one), Err(other)) => one.msg@ == other.msg@ && one.line_num == other.line_num,
            _ => false,
        },
{
}

/// Behind a closed comment, the scan of a line passes whitespace unchanged.
proof fn lemma_scan_to_code(scan: Scan, line: Seq<char>, pos: int, code: int)
    requires
        scan.session.comment == CommentState::Done,
        0 <= pos <= code < line.len(),
        forall|i: int| pos <= i < code ==> blank(#[trigger] line[i]),
    ensures
        scan_from(scan, line, pos) == scan_from(scan, line, code),
    decreases code - pos,
{
    if pos < code {
        let step = offer(scan, line[pos], peek(line, pos));
        assert(step.scan == scan);
        lemma_scan_to_code(scan, line, pos + 1, code);
    }
}

/// What the character that resolves the indentation of a line does. Where
/// `columns` columns of margin have been counted and `c` is neither tab nor
/// space, the count is resolved and the level of the line, `columns / 4`,
/// becomes the level of the session. Against the level before, one `INDENT` is
/// made for each level gained and one `DEDENT` for each level lost; where the
/// levels agree no token is made. Nothing else of the session changes.
pub proof fn lemma_resolving_character(session: Session, columns: nat, c: char)
    requires
        !indents(c),
    ensures
        ({
            let (after, indent) = indent_step(session, Some(columns), c);
            let level = level_of(columns);
            &&& indent is None
            &&& after.level == level
            &&& after.comment == session.comment
            &&& after.line_num == session.line_num
            &&& level >= session.level ==> after.tokens == session.tokens + repeated(
                bare_token(TokenType::INDENT, session.line_num),
                (level - session.level) as nat,
            )
            &&& level <= session.level ==> after.tokens == session.tokens + repeated(
                bare_token(TokenType::DEDENT, session.line_num),
                (session.level - level) as nat,
            )
        }),
{
    let level = level_of(columns);
    if level == session.level {
        assert(repeated(bare_token(TokenType::INDENT, session.line_num), 0) =~= repeated(
            bare_token(TokenType::DEDENT, session.line_num),
            0,
        ));
    }
}

/// A margin of tabs has four columns for each tab, so as many levels as tabs.
pub proof fn lemma_columns_of_tabs(count: nat)
    ensures
        columns_of(Seq::new(count, |i: int| '\t')) == 4 * count,
        level_of(columns_of(Seq::new(count, |i: int| '\t'))) == count,
    decreases count,
{
    if count > 0 {
        lemma_columns_of_tabs((count - 1) as nat);
        assert(Seq::new(count, |i: int| '\t').drop_last() =~= Seq::new(
            (count - 1) as nat,
            |i: int| '\t',
        ));
    }
}

/// A margin of spaces has one column for each space, so one level for each
/// whole group of four.
pub proof fn lemma_columns_of_spaces(count: nat)
    ensures
        columns_of(Seq::new(count, |i: int| ' ')) == count,
    decreases count,
{
    if count > 0 {
        lemma_columns_of_spaces((count - 1) as nat);
        assert(Seq::new(count, |i: int| ' ').drop_last() =~= Seq::new(
            (count - 1) as nat,
            |i: int| ' ',
        ));
    }
}

/// The scan of lines goes on behind a first line that has no fault.
proof fn lemma_scan_lines_step(session: Session, lines: Seq<Seq<char>>)
    requires
        lines.len() > 0,
        scan_line(session.next_line(), lines[0]).fault is None,
    ensures
        scan_lines(session, lines) == scan_lines(
            scan_line(session.next_line(), lines[0]).session,
            lines.drop_first(),
        ),
{
}

/// A word holds neither a line feed nor a carriage return.
proof fn lemma_word_has_no_line_end(word: Seq<char>)
    requires
        is_word(word),
    ensures
        forall|i: int| 0 <= i < word.len() ==> #[trigger] word[i] != '\n' && word[i] != '\r',
{
    assert forall|i: int| 0 <= i < word.len() implies #[trigger] word[i] != '\n' && word[i]
        != '\r' by {
        if i > 0 {
            assert(ascii_alphanumeric(word[i]));
        }
    }
}

/// Indentation round trip, for a whole text. Take a text of three lines: a
/// word, then a word behind a margin of tabs and spaces, then a word. Let `n`
/// be the level of the margin: a tab counts four columns, a space one, and four
/// columns make a level. The text is scanned without a fault to: the first
/// word and its `ENDOFLINE`; exactly `n` `INDENT` tokens, the second word and
/// its `ENDOFLINE`; exactly `n` `DEDENT` tokens, the third word and its
/// `ENDOFLINE`.
pub proof fn lemma_indent_then_dedent(
    head: Seq<char>,
    margin: Seq<char>,
    body: Seq<char>,
    tail: Seq<char>,
)
    requires
        is_word(head),
        is_word(body),
        is_word(tail),
        forall|i: int| 0 <= i < margin.len() ==> indents(#[trigger] margin[i]),
    ensures
        scan_text(head + seq!['\n'] + margin + body + seq!['\n'] + tail) == (Outcome {
            session: Session {
                tokens: seq![word_token(head, 1), bare_token(TokenType::ENDOFLINE, 1)] + repeated(
                    bare_token(TokenType::INDENT, 2),
                    level_of(columns_of(margin)),
                ) + seq![word_token(body, 2), bare_token(TokenType::ENDOFLINE, 2)] + repeated(
                    bare_token(TokenType::DEDENT, 3),
                    level_of(columns_of(margin)),
                ) + seq![word_token(tail, 3), bare_token(TokenType::ENDOFLINE, 3)],
                level: 0,
                comment: CommentState::NoComment,
                line_num: 3,
            },
            fault: None,
        }),
{
    let n = level_of(columns_of(margin));
    let second = margin + body;
    let text = head + seq!['\n'] + margin + body + seq!['\n'] + tail;
    lemma_word_has_no_line_end(head);
    lemma_word_has_no_line_end(body);
    lemma_word_has_no_line_end(tail);
    assert forall|i: int| 0 <= i < second.len() implies #[trigger] second[i] != '\n' by {
        if i < margin.len() {
            assert(second[i] == margin[i]);
        } else {
            assert(second[i] == body[i - margin.len()]);
        }
    }
    assert(second.last() == body.last());
    assert(text =~= head + seq!['\n'] + (second + seq!['\n'] + tail));
    lemma_lines_of_joined(head, second + seq!['\n'] + tail);
    lemma_lines_of_joined(second, tail);
    lemma_lines_of_last(tail);
    let lines = lines_of(text);
    assert(lines =~= seq![head, second, tail]);

    let start = Session::initial();
    lemma_word_alone_on_line(start.next_line(), head);
    let first = scan_line(start.next_line(), head).session;
    lemma_scan_lines_step(start, lines);
    assert(lines.drop_first() =~= seq![second, tail]);

    lemma_indented_word(first.next_line(), margin, body);
    let middle = scan_line(first.next_line(), second).session;
    lemma_scan_lines_step(first, seq![second, tail]);
    assert(seq![second, tail].drop_first() =~= seq![tail]);

    lemma_word_alone_on_line(middle.next_line(), tail);
    let last = scan_line(middle.next_line(), tail).session;
    lemma_scan_lines_step(middle, seq![tail]);
    assert(seq![tail].drop_first() =~= Seq::<Seq<char>>::empty());
    assert(scan_lines(last, Seq::<Seq<char>>::empty()) == Outcome { session: last, fault: None });

    assert(last.tokens =~= seq![word_token(head, 1), bare_token(TokenType::ENDOFLINE, 1)]
        + repeated(bare_token(TokenType::INDENT, 2), n) + seq![
        word_token(body, 2),
        bare_token(TokenType::ENDOFLINE, 2),
    ] + repeated(bare_token(TokenType::DEDENT, 3), n) + seq![
        word_token(tail, 3),
        bare_token(TokenType::ENDOFLINE, 3),
    ]);
}

/// Whether each of `tokens` carries text exactly where its kind is one that
/// has text of its own: an identifier, a number or a literal.
pub open spec fn lexemes_by_kind(tokens: Seq<TokenView>) -> bool {
    forall|i: int|
        0 <= i < tokens.len() ==> ((#[trigger] tokens[i]).lexeme is Some) == shows_lexeme(
            tokens[i].kind,
        )
}

/// One character keeps the lexemes by kind.
proof fn lemma_offer_lexemes(scan: Scan, c: char, next: char)
    requires
        lexemes_by_kind(scan.session.tokens),
    ensures
        lexemes_by_kind(offer(scan, c, next).scan.session.tokens),
{
    let content = lemma_offer_shape(scan, c, next);
    let after = offer(scan, c, next).scan.session;
    let shift = indent_tokens(scan.session.level, after.level, scan.session.line_num);
    let n = scan.session.tokens.len() as int;
    assert forall|i: int| 0 <= i < after.tokens.len() implies ((#[trigger] after.tokens[i]).lexeme
        is Some) == shows_lexeme(after.tokens[i].kind) by {
        if i < n {
            assert(after.tokens[i] == scan.session.tokens[i]);
        } else if i < n + shift.len() {
            assert(after.tokens[i] == shift[i - n]);
        }
    }
}

/// The rest of a line keeps the lexemes by kind.
proof fn lemma_scan_from_lexemes(scan: Scan, line: Seq<char>, pos: int)
    requires
        lexemes_by_kind(scan.session.tokens),
    ensures
        lexemes_by_kind(scan_from(scan, line, pos).0.session.tokens),
    decreases line.len() - pos,
{
    if 0 <= pos < line.len() {
        let step = offer(scan, line[pos], peek(line, pos));
        lemma_offer_lexemes(scan, line[pos], peek(line, pos));
        match step.result {
            Err(fault) => {},
            Ok(takes_next) => {
                lemma_scan_from_lexemes(
                    step.scan,
                    line,
                    if takes_next {
                        pos + 2
                    } else {
                        pos + 1
                    },
                );
            },
        }
    }
}

/// A line keeps the lexemes by kind.
proof fn lemma_scan_line_lexemes(session: Session, line: Seq<char>)
    requires
        lexemes_by_kind(session.tokens),
    ensures
        lexemes_by_kind(scan_line(session, line).session.tokens),
{
    lemma_scan_from_lexemes(Scan::begin(session), line, 0);
    let scan = scan_from(Scan::begin(session), line, 0).0;
    let after = scan_line(session, line).session;
    let n = scan.session.tokens.len() as int;
    assert forall|i: int| 0 <= i < after.tokens.len() implies ((#[trigger] after.tokens[i]).lexeme
        is Some) == shows_lexeme(after.tokens[i].kind) by {
        if i < n {
            assert(after.tokens[i] == scan.session.tokens[i]);
        }
    }
}

/// Lines keep the lexemes by kind.
proof fn lemma_scan_lines_lexemes(session: Session, lines: Seq<Seq<char>>)
    requires
        lexemes_by_kind(session.tokens),
    ensures
        lexemes_by_kind(scan_lines(session, lines).session.tokens),
    decreases lines.len(),
{
    if lines.len() > 0 {
        lemma_scan_line_lexemes(session.next_line(), lines[0]);
        let first = scan_line(session.next_line(), lines[0]);
        if first.fault is None {
            lemma_scan_lines_lexemes(first.session, lines.drop_first());
        }
    }
}

/// Which tokens carry text. In the tokens of any scan, a token carries a
/// lexeme if and only if it is an identifier, a number, a string literal or a
/// character literal. A keyword, an operator, a punctuation mark, `INDENT`,
/// `DEDENT` and `ENDOFLINE` carry none.
pub proof fn lemma_lexemes_by_kind(text: Seq<char>)
    ensures
        lexemes_by_kind(scan_text(text).session.tokens),
{
    lemma_scan_lines_lexemes(Session::initial(), lines_of(text));
}

/// The `ENDOFLINE` tokens of `count` lines one after the other, the first of
/// which has the number `first`.
pub open spec fn ends_of_lines(first: nat, count: nat) -> Seq<TokenView> {
    Seq::new(count, |i: int| bare_token(TokenType::ENDOFLINE, (first + i) as nat))
}

/// A line that is one whole comment. Where no comment is open and a line is a
/// `{`, then characters other than `}`, then a `}`, the line makes no token
/// but its `ENDOFLINE`, and no comment is open after it.
pub proof fn lemma_line_is_comment(session: Session, body: Seq<char>)
    requires
        session.comment == CommentState::NoComment,
        forall|i: int| 0 <= i < body.len() ==> #[trigger] body[i] != '}',
    ensures
        scan_line(session, seq!['{'] + body + seq!['}']) == (Outcome {
            session: session.emit_one(Some(bare_token(TokenType::ENDOFLINE, session.line_num))),
            fault: None,
        }),
{
    let line = seq!['{'] + body + seq!['}'];
    let close = line.len() - 1;
    let begin = Scan::begin(session);
    let opened = Scan {
        session: Session { comment: CommentState::IsComment, ..session },
        ..begin
    };
    let closed = Scan { session: Session { comment: CommentState::Done, ..session }, ..begin };
    assert(line[0] == '{');
    assert(offer(begin, line[0], peek(line, 0)).scan == opened);
    assert forall|i: int| 1 <= i < close implies #[trigger] line[i] != '}' by {
        assert(line[i] == body[i - 1]);
    }
    lemma_scan_to_closing(opened, line, 1, close);
    assert(line[close] == '}');
    assert(offer(opened, line[close], peek(line, close)).scan == closed);
    lemma_scan_behind_comment(closed, line, close + 1);
}

/// An open comment to its end. Where a comment is open and a text holds one
/// `}`, as its last character, each line of the text makes its `ENDOFLINE` and
/// nothing else, and no comment is open behind the text.
proof fn lemma_comment_to_its_end(session: Session, text: Seq<char>)
    requires
        session.comment == CommentState::IsComment,
        text.len() > 0,
        text.last() == '}',
        forall|i: int| 0 <= i < text.len() - 1 ==> #[trigger] text[i] != '}',
    ensures
        scan_lines(session, lines_of(text)) == (Outcome {
            session: Session {
                tokens: session.tokens + ends_of_lines(
                    session.line_num + 1,
                    lines_of(text).len(),
                ),
                comment: CommentState::NoComment,
                line_num: session.line_num + lines_of(text).len(),
                ..session
            },
            fault: None,
        }),
    decreases text.len(),
{
    let k = first_line_feed(text) as int;
    lemma_first_line_feed_bound(text);
    let next = session.next_line();
    let lines = lines_of(text);
    if k >= text.len() {
        let body = text.drop_last();
        let none = Seq::<char>::empty();
        assert(text =~= body + seq!['}'] + none);
        lemma_line_closes_comment(next, body, none);
        lemma_scan_lines_step(session, lines);
        assert(lines.drop_first() =~= Seq::<Seq<char>>::empty());
        assert(session.tokens.push(bare_token(TokenType::ENDOFLINE, session.line_num + 1))
            =~= session.tokens + ends_of_lines(session.line_num + 1, 1));
    } else {
        let first = without_carriage_return(text.take(k));
        let rest = text.skip(k + 1);
        assert forall|i: int| 0 <= i < first.len() implies #[trigger] first[i] != '}' by {
            assert(first[i] == text[i]);
        }
        lemma_line_inside_comment(next, first);
        lemma_scan_lines_step(session, lines);
        assert(lines.drop_first() =~= lines_of(rest));
        let after = scan_line(next, first).session;
        assert(rest.len() > 0);
        assert(rest.last() == text.last());
        assert forall|i: int| 0 <= i < rest.len() - 1 implies #[trigger] rest[i] != '}' by {
            assert(rest[i] == text[i + k + 1]);
        }
        lemma_comment_to_its_end(after, rest);
        assert(session.tokens.push(bare_token(TokenType::ENDOFLINE, session.line_num + 1))
            + ends_of_lines(session.line_num + 2, lines_of(rest).len()) =~= session.tokens
            + ends_of_lines(session.line_num + 1, lines.len()));
    }
}

/// A comment makes no line feed more or less: the line feeds of a text in
/// braces are those of the text.
proof fn lemma_line_feeds_in_braces(body: Seq<char>)
    ensures
        line_feeds(seq!['{'] + body + seq!['}']) == line_feeds(body),
{
    let text = seq!['{'] + body + seq!['}'];
    assert(text.drop_first() =~= body + seq!['}']);
    lemma_line_feeds_push(body, '}');
}

/// A character other than a line feed at the end of a text adds no line feed.
proof fn lemma_line_feeds_push(text: Seq<char>, c: char)
    requires
        c != '\n',
    ensures
        line_feeds(text + seq![c]) == line_feeds(text),
    decreases text.len(),
{
    let whole = text + seq![c];
    if text.len() == 0 {
        assert(whole.drop_first() =~= Seq::<char>::empty());
        assert(line_feeds(whole.drop_first()) == 0);
    } else {
        assert(whole.drop_first() =~= text.drop_first() + seq![c]);
        lemma_line_feeds_push(text.drop_first(), c);
    }
}

/// A comment of many lines. A text that is one comment, a `{`, then any
/// characters other than `}`, then a `}`, is scanned without a fault to one
/// `ENDOFLINE` for each of its lines and nothing else: no token of content and
/// no `INDENT` or `DEDENT`, whatever stands inside the comment. It has one line
/// more than the comment holds line feeds, and the `ENDOFLINE` tokens bear the
/// numbers of the lines in their order. No comment is open behind it.
pub proof fn lemma_comment_of_lines(body: Seq<char>)
    requires
        forall|i: int| 0 <= i < body.len() ==> #[trigger] body[i] != '}',
    ensures
        scan_text(seq!['{'] + body + seq!['}']) == (Outcome {
            session: Session {
                tokens: ends_of_lines(1, line_feeds(body) + 1),
                level: 0,
                comment: CommentState::NoComment,
                line_num: line_feeds(body) + 1,
            },
            fault: None,
        }),
{
    let text = seq!['{'] + body + seq!['}'];
    let lines = lines_of(text);
    lemma_lines_and_line_feeds(text);
    lemma_line_feeds_in_braces(body);
    let k = first_line_feed(text) as int;
    lemma_first_line_feed_bound(text);
    let start = Session::initial();
    let next = start.next_line();
    assert forall|i: int| 1 <= i < text.len() - 1 implies #[trigger] text[i] != '}' by {
        assert(text[i] == body[i - 1]);
    }
    if k >= text.len() {
        lemma_line_is_comment(next, body);
        lemma_scan_lines_step(start, lines);
        assert(lines.drop_first() =~= Seq::<Seq<char>>::empty());
        assert(start.tokens.push(bare_token(TokenType::ENDOFLINE, 1)) =~= ends_of_lines(1, 1));
    } else {
        let first = without_carriage_return(text.take(k));
        let rest = text.skip(k + 1);
        assert(text[0] == '{');
        assert(first.len() > 0 && first[0] == '{');
        assert forall|i: int| 0 <= i < first.len() implies #[trigger] first[i] != '}' by {
            assert(first[i] == text[i]);
        }
        lemma_line_opens_comment(next, first);
        lemma_scan_lines_step(start, lines);
        assert(lines.drop_first() =~= lines_of(rest));
        let after = scan_line(next, first).session;
        assert(rest.len() > 0);
        assert(rest.last() == text.last());
        assert forall|i: int| 0 <= i < rest.len() - 1 implies #[trigger] rest[i] != '}' by {
            assert(rest[i] == text[i + k + 1]);
        }
        lemma_comment_to_its_end(after, rest);
        assert(start.tokens.push(bare_token(TokenType::ENDOFLINE, 1)) + ends_of_lines(
            2,
            lines_of(rest).len(),
        ) =~= ends_of_lines(1, lines.len()));
    }
}

} // verus!
