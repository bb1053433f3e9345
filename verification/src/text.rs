//! Text as a sequence of lines.

use vstd::prelude::*;
use crate::seqs::{lemma_views_push, views};

verus! {

/// `String::push` appends one character to the string.
pub assume_specification[ String::push ](s: &mut String, ch: char)
    ensures
        final(s)@ == old(s)@.push(ch),
;

/// `String::pop` removes the last character and returns it, or returns
/// `None` and leaves the string empty if it was empty.
pub assume_specification[ String::pop ](s: &mut String) -> (r: Option<char>)
    ensures
        old(s)@.len() == 0 ==> r is None && final(s)@ == old(s)@,
        old(s)@.len() > 0 ==> r == Some(old(s)@.last()) && final(s)@ == old(s)@.drop_last(),
;

/// A line without the carriage return that may stand before its line feed.
pub open spec fn strip_cr(line: Seq<char>) -> Seq<char> {
    if line.len() > 0 && line.last() == '\r' {
        line.drop_last()
    } else {
        line
    }
}

/// Reading `text` from the left: the lines that a line feed has ended, and
/// the characters read since the last line feed.
pub open spec fn scan(text: Seq<char>) -> (Seq<Seq<char>>, Seq<char>)
    decreases text.len(),
{
    if text.len() == 0 {
        (Seq::empty(), Seq::empty())
    } else {
        let (ended, rest) = scan(text.drop_last());
        if text.last() == '\n' {
            (ended.push(strip_cr(rest)), Seq::empty())
        } else {
            (ended, rest.push(text.last()))
        }
    }
}

/// The lines of `text`. A line ends with a line feed, or with a carriage
/// return and a line feed; neither belongs to the line. What follows the
/// last line feed is a line too, unless it is empty.
pub open spec fn lines_of(text: Seq<char>) -> Seq<Seq<char>> {
    let (ended, rest) = scan(text);
    if rest.len() > 0 {
        ended.push(rest)
    } else {
        ended
    }
}

/// Splits `text` into its lines.
pub fn split_lines(text: &str) -> (lines: Vec<String>)
    ensures
        views(lines@) == lines_of(text@),
{
    let mut lines: Vec<String> = Vec::new();
    let mut rest = String::new();
    for c in it: text.chars()
        invariant
            it.seq() == text@,
            views(lines@) == scan(text@.take(it.index())).0,
            rest@ == scan(text@.take(it.index())).1,
    {
        proof {
            let n = it.index();
            assert(text@.take(n + 1).drop_last() == text@.take(n));
            assert(text@.take(n + 1).last() == c);
        }
        if c == '\n' {
            let ghost whole = rest@;
            let last = rest.pop();
            if let Some(l) = last {
                if l != '\r' {
                    rest.push(l);
                    assert(rest@ == whole);
                }
            }
            proof {
                lemma_views_push(lines@, rest);
            }
            lines.push(rest);
            rest = String::new();
        } else {
            rest.push(c);
        }
    }
    assert(text@.take(text@.len() as int) == text@);
    if !rest.as_str().is_empty() {
        lines.push(rest);
    }
    lines
}

} // verus!
