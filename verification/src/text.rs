//! Physical lines of a source text.

use vstd::prelude::*;

verus! {

/// The position of the first line feed in `text`, or the length of `text`
/// where it holds none.
pub open spec fn first_line_feed(text: Seq<char>) -> nat
    decreases text.len(),
{
    if text.len() == 0 || text[0] == '\n' {
        0
    } else {
        1 + first_line_feed(text.drop_first())
    }
}

/// A line without the carriage return that stood before its line feed.
pub open spec fn without_carriage_return(line: Seq<char>) -> Seq<char> {
    if line.len() > 0 && line.last() == '\r' {
        line.drop_last()
    } else {
        line
    }
}

/// The physical lines of a text. A line ends at a line feed, or at a carriage
/// return directly followed by one; neither belongs to the line. The last line
/// needs no line feed, and a text that ends in one has no empty line after it.
pub open spec fn lines_of(text: Seq<char>) -> Seq<Seq<char>>
    decreases text.len(),
{
    if text.len() == 0 {
        Seq::empty()
    } else {
        let k = first_line_feed(text);
        if k >= text.len() {
            seq![text]
        } else {
            seq![without_carriage_return(text.take(k as int))] + lines_of(text.skip(k as int + 1))
        }
    }
}

/// `first_line_feed` finds `k` where no line feed stands before `k` and one
/// stands at `k`, or `k` is the end of the text.
pub proof fn lemma_first_line_feed(text: Seq<char>, k: int)
    requires
        0 <= k <= text.len(),
        forall|j: int| 0 <= j < k ==> text[j] != '\n',
        k == text.len() || text[k] == '\n',
    ensures
        first_line_feed(text) == k,
    decreases k,
{
    if k > 0 {
        lemma_first_line_feed(text.drop_first(), k - 1);
    }
}

/// A text has at most as many lines as characters.
pub proof fn lemma_line_count(text: Seq<char>)
    ensures
        lines_of(text).len() <= text.len(),
    decreases text.len(),
{
    if text.len() > 0 {
        let k = first_line_feed(text);
        lemma_first_line_feed_bound(text);
        if k < text.len() {
            lemma_line_count(text.skip(k as int + 1));
        }
    }
}

/// The first line feed lies within the text or at its end.
pub proof fn lemma_first_line_feed_bound(text: Seq<char>)
    ensures
        first_line_feed(text) <= text.len(),
        forall|j: int| 0 <= j < first_line_feed(text) ==> text[j] != '\n',
        first_line_feed(text) < text.len() ==> text[first_line_feed(text) as int] == '\n',
    decreases text.len(),
{
    if text.len() == 0 || text[0] == '\n' {
    } else {
        let rest = text.drop_first();
        lemma_first_line_feed_bound(rest);
        assert forall|j: int| 0 <= j < first_line_feed(text) implies text[j] != '\n' by {
            if j > 0 {
                assert(text[j] == rest[j - 1]);
            }
        }
        assert(first_line_feed(rest) < rest.len() ==> text[first_line_feed(text) as int]
            == rest[first_line_feed(rest) as int]);
    }
}

/// A text without a line feed that is not empty is one line.
pub proof fn lemma_lines_of_last(line: Seq<char>)
    requires
        line.len() > 0,
        forall|i: int| 0 <= i < line.len() ==> #[trigger] line[i] != '\n',
    ensures
        lines_of(line) == seq![line],
{
    lemma_first_line_feed(line, line.len() as int);
}

/// A line, a line feed and more text: the line is the first line of the whole,
/// and the lines of the rest follow it.
pub proof fn lemma_lines_of_joined(first: Seq<char>, rest: Seq<char>)
    requires
        forall|i: int| 0 <= i < first.len() ==> #[trigger] first[i] != '\n',
        first.len() == 0 || first.last() != '\r',
    ensures
        lines_of(first + seq!['\n'] + rest) == seq![first] + lines_of(rest),
{
    let text = first + seq!['\n'] + rest;
    let k = first.len() as int;
    assert forall|j: int| 0 <= j < k implies text[j] != '\n' by {
        assert(text[j] == first[j]);
    }
    assert(text[k] == '\n');
    lemma_first_line_feed(text, k);
    assert(text.take(k) =~= first);
    assert(text.skip(k + 1) =~= rest);
}

/// The number of line feeds in a text.
pub open spec fn line_feeds(text: Seq<char>) -> nat
    decreases text.len(),
{
    if text.len() == 0 {
        0
    } else if text[0] == '\n' {
        1 + line_feeds(text.drop_first())
    } else {
        line_feeds(text.drop_first())
    }
}

/// The line feeds of a text are those behind any stretch without one.
proof fn lemma_line_feeds_skip(text: Seq<char>, k: int)
    requires
        0 <= k <= text.len(),
        forall|j: int| 0 <= j < k ==> #[trigger] text[j] != '\n',
    ensures
        line_feeds(text) == line_feeds(text.skip(k)),
    decreases k,
{
    if k == 0 {
        assert(text.skip(0) =~= text);
    } else {
        let rest = text.drop_first();
        assert forall|j: int| 0 <= j < k - 1 implies #[trigger] rest[j] != '\n' by {
            assert(rest[j] == text[j + 1]);
        }
        lemma_line_feeds_skip(rest, k - 1);
        assert(rest.skip(k - 1) =~= text.skip(k));
    }
}

/// A text that does not end in a line feed has one line more than it has line
/// feeds.
pub proof fn lemma_lines_and_line_feeds(text: Seq<char>)
    requires
        text.len() > 0,
        text.last() != '\n',
    ensures
        lines_of(text).len() == line_feeds(text) + 1,
    decreases text.len(),
{
    let k = first_line_feed(text) as int;
    lemma_first_line_feed_bound(text);
    lemma_line_feeds_skip(text, k);
    if k < text.len() {
        let at = text.skip(k);
        let rest = text.skip(k + 1);
        assert(at[0] == '\n');
        assert(at.drop_first() =~= rest);
        assert(rest.len() > 0);
        assert(rest.last() == text.last());
        lemma_lines_and_line_feeds(rest);
    } else {
        assert(text.skip(k) =~= Seq::<char>::empty());
    }
}

/// The character sequences that a vector of lines holds.
pub open spec fn line_views(lines: Seq<Vec<char>>) -> Seq<Seq<char>> {
    lines.map_values(|line: Vec<char>| line@)
}

/// Splits a text into its physical lines.
pub fn split_lines(text: &str) -> (lines: Vec<Vec<char>>)
    ensures
        line_views(lines@) == lines_of(text@),
{
    let mut lines: Vec<Vec<char>> = Vec::new();
    let mut line: Vec<char> = Vec::new();
    let ghost mut start: int = 0;
    assert(text@.skip(0) == text@);
    assert(line_views(lines@) + lines_of(text@) =~= lines_of(text@));
    for c in it: text.chars()
        invariant
            it.seq() == text@,
            0 <= start <= it.index(),
            line@ == text@.subrange(start, it.index() as int),
            forall|j: int| 0 <= j < line@.len() ==> line@[j] != '\n',
            lines_of(text@) == line_views(lines@) + lines_of(text@.skip(start)),
    {
        let ghost at = it.index() as int;
        if c == '\n' {
            proof {
                let tail = text@.skip(start);
                assert forall|j: int| 0 <= j < at - start implies tail[j] != '\n' by {
                    assert(tail[j] == line@[j]);
                }
                lemma_first_line_feed(tail, at - start);
                assert(tail.take(at - start) == line@);
                assert(tail.skip(at - start + 1) == text@.skip(at + 1));
            }
            let ghost whole = line@;
            let n = line.len();
            if n > 0 && line[n - 1] == '\r' {
                line.pop();
            }
            assert(line@ == without_carriage_return(whole));
            let ghost before = line_views(lines@);
            lines.push(line);
            assert(line_views(lines@) =~= before + seq![without_carriage_return(whole)]);
            line = Vec::new();
            proof {
                start = at + 1;
            }
        } else {
            line.push(c);
        }
        assert(line@ == text@.subrange(start, at + 1));
    }
    if line.len() > 0 {
        proof {
            let tail = text@.skip(start);
            assert(tail == line@);
            lemma_first_line_feed(tail, tail.len() as int);
        }
        let ghost before = line_views(lines@);
        let ghost last = line@;
        lines.push(line);
        assert(line_views(lines@) =~= before + seq![last]);
    } else {
        assert(text@.skip(start).len() == 0);
    }
    lines
}

} // verus!
