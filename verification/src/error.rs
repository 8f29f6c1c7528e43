//! The one error type of the crate: a message and, where known, the span
//! of source text that it is about.

use crate::position::{locator, push_locator, Position};
use crate::text::{chars_of, lines, push_all, push_str, rows, split_lines, string_of};
use vstd::prelude::*;

verus! {

/// A failure of the tokenizer, the parser or the evaluator.
#[derive(Debug, PartialEq)]
pub struct Error {
    msg: String,
    pos: Option<Position>,
}

/// What an `Error` holds.
pub struct ErrorView {
    pub msg: Seq<char>,
    pub pos: Option<Position>,
}

impl View for Error {
    type V = ErrorView;

    closed spec fn view(&self) -> ErrorView {
        ErrorView { msg: self.msg@, pos: self.pos }
    }
}

/// The rows of `ls`, one after the other with nothing between them.
pub open spec fn joined(ls: Seq<Seq<char>>) -> Seq<char>
    decreases ls.len(),
{
    if ls.len() == 0 {
        Seq::empty()
    } else {
        joined(ls.drop_last()) + ls.last()
    }
}

/// The lines `start..end` of `ls` run together, or nothing where `ls` has
/// no such lines.
pub open spec fn excerpt(ls: Seq<Seq<char>>, start: int, end: int) -> Seq<char> {
    if 0 <= start <= end <= ls.len() {
        joined(ls.subrange(start, end))
    } else {
        Seq::empty()
    }
}

/// The report of an error `e` found in the text `text` that was read from
/// `path`: the message and, where the error has a span, the path, the
/// place where the span starts and the lines that it touches.
pub open spec fn report(e: ErrorView, path: Seq<char>, text: Seq<char>) -> Seq<char> {
    let head = "ERROR: "@ + e.msg;
    match e.pos {
        None => head,
        Some(pos) => head + " - "@ + path + seq![':'] + locator(pos) + seq!['\n'] + excerpt(
            lines(text),
            pos.ln.start as int,
            pos.ln.end as int,
        ),
    }
}

/// The report of an error `e` whose source may not be at hand: the
/// message and, where the error has a span, the place where the span
/// starts and, where the source is given, the lines that it touches.
pub open spec fn notice(e: ErrorView, text: Option<Seq<char>>) -> Seq<char> {
    let head = "ERROR: "@ + e.msg;
    match e.pos {
        None => head,
        Some(pos) => head + locator(pos) + match text {
            Some(t) => excerpt(lines(t), pos.ln.start as int, pos.ln.end as int),
            None => Seq::empty(),
        },
    }
}

/// Appends the lines `start..end` of `text`, run together.
pub fn push_excerpt(out: &mut Vec<char>, text: &Vec<char>, start: usize, end: usize)
    ensures
        final(out)@ == old(out)@ + excerpt(lines(text@), start as int, end as int),
{
    let ls = split_lines(text);
    if start <= end && end <= ls.len() {
        let ghost part = rows(ls@).subrange(start as int, end as int);
        let mut i: usize = start;
        while i < end
            invariant
                start <= i <= end <= ls.len(),
                rows(ls@) == lines(text@),
                part == rows(ls@).subrange(start as int, end as int),
                out@ == old(out)@ + joined(part.take(i - start)),
            decreases end - i,
        {
            push_all(out, &ls[i]);
            proof {
                let next = part.take(i + 1 - start);
                assert(next.drop_last() =~= part.take(i - start));
                assert(next.last() == ls@[i as int]@);
                assert(out@ =~= old(out)@ + joined(next));
            }
            i += 1;
        }
        assert(part.take(end - start) =~= part);
    } else {
        assert(out@ =~= old(out)@ + Seq::<char>::empty());
    }
}

impl Error {
    /// An error with the message `msg` about the span `pos`.
    pub fn new(msg: String, pos: Option<Position>) -> (r: Self)
        ensures
            r@ == (ErrorView { msg: msg@, pos }),
    {
        Self { msg, pos }
    }

    /// The message.
    pub fn msg(&self) -> (r: &String)
        ensures
            r@ == self@.msg,
    {
        &self.msg
    }

    /// The span that the error is about, if it has one.
    pub fn pos(&self) -> (r: &Option<Position>)
        ensures
            *r == self@.pos,
    {
        &self.pos
    }

    /// Renders the error with the lines it is about, where the source
    /// could be read.
    pub fn display_source(&self, text: Option<String>) -> (r: String)
        ensures
            r@ == notice(
                self@,
                match text {
                    Some(t) => Some(t@),
                    None => None,
                },
            ),
    {
        let mut out: Vec<char> = Vec::new();
        push_str(&mut out, "ERROR: ");
        push_str(&mut out, self.msg.as_str());
        match &self.pos {
            None => {},
            Some(pos) => {
                push_locator(&mut out, pos);
                match text {
                    Some(t) => {
                        let chars = chars_of(t.as_str());
                        push_excerpt(&mut out, &chars, pos.ln.start, pos.ln.end);
                    },
                    None => {
                        assert(out@ =~= out@ + Seq::<char>::empty());
                    },
                }
            },
        }
        string_of(&out)
    }

    /// Renders the error for a reader who has the source text at hand.
    pub fn display_text(&self, path: &String, text: String) -> (r: String)
        ensures
            r@ == report(self@, path@, text@),
    {
        let mut out: Vec<char> = Vec::new();
        push_str(&mut out, "ERROR: ");
        push_str(&mut out, self.msg.as_str());
        match &self.pos {
            None => {
                assert(out@ =~= report(self@, path@, text@));
            },
            Some(pos) => {
                push_str(&mut out, " - ");
                push_str(&mut out, path.as_str());
                out.push(':');
                push_locator(&mut out, pos);
                out.push('\n');
                let chars = chars_of(text.as_str());
                push_excerpt(&mut out, &chars, pos.ln.start, pos.ln.end);
                assert(out@ =~= report(self@, path@, text@));
            },
        }
        string_of(&out)
    }
}

} // verus!
