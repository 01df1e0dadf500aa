//! The search for a root by Newton's method: when a search goes on, and
//! what one line of the dialogue about starting points asks for.
//!
//! For an equation of degree 3 and above the caller asks for starting
//! points, one line at a time, until a line holds nothing. From each
//! starting point it moves by `x - p(x) / p'(x)` until the value of the
//! polynomial is close to zero or the moves are used up.

use crate::text::is_blank;
use vstd::prelude::*;

verus! {

/// The most moves that one search makes.
pub const MAX_MOVES: usize = 1000;

/// What a search does next.
#[derive(Debug, Clone, Copy, PartialEq, Eq)]
pub enum Move {
    /// The value of the polynomial is close enough to zero: the search ends
    /// where it stands.
    Settle,
    /// The search moves on.
    Advance,
    /// The moves are used up: the search ends without having settled.
    GiveUp,
}

/// What a search does after `moves` moves: it settles where the value of
/// the polynomial is close enough to zero, however many moves it has made;
/// it moves on while it has made fewer than `MAX_MOVES`; else it gives up.
pub open spec fn move_of(moves: nat, close: bool) -> Move {
    if close {
        Move::Settle
    } else if moves < MAX_MOVES {
        Move::Advance
    } else {
        Move::GiveUp
    }
}

/// Decides the next move of a search.
pub fn next_move(moves: usize, close: bool) -> (next: Move)
    ensures
        next == move_of(moves as nat, close),
{
    if close {
        Move::Settle
    } else if moves < MAX_MOVES {
        Move::Advance
    } else {
        Move::GiveUp
    }
}

/// A text without the blanks at its beginning.
pub open spec fn strip_front(text: Seq<char>) -> Seq<char>
    decreases text.len(),
{
    if text.len() > 0 && is_blank(text[0]) {
        strip_front(text.skip(1))
    } else {
        text
    }
}

/// A text without the blanks at its end.
pub open spec fn strip_back(text: Seq<char>) -> Seq<char>
    decreases text.len(),
{
    if text.len() > 0 && is_blank(text.last()) {
        strip_back(text.drop_last())
    } else {
        text
    }
}

/// A text without the blanks at both ends.
pub open spec fn stripped(text: Seq<char>) -> Seq<char> {
    strip_back(strip_front(text))
}

/// What a line of input asks for.
#[derive(Debug, Clone, PartialEq, Eq)]
pub enum Reply {
    /// The line holds nothing but blanks: the search is over.
    Stop,
    /// The line holds a text, here without the blanks around it, that is to
    /// be read as a starting point.
    Start(String),
}

/// What a line asks for, as contracts speak of it.
pub enum ReplyView {
    Stop,
    Start(Seq<char>),
}

impl View for Reply {
    type V = ReplyView;

    open spec fn view(&self) -> ReplyView {
        match self {
            Reply::Stop => ReplyView::Stop,
            Reply::Start(text) => ReplyView::Start(text@),
        }
    }
}

/// What a line asks for: to stop where nothing is left of it without the
/// blanks at its ends, to start from what is left otherwise.
pub open spec fn reply_of(line: Seq<char>) -> ReplyView {
    if stripped(line).len() == 0 {
        ReplyView::Stop
    } else {
        ReplyView::Start(stripped(line))
    }
}

/// Reads one line of the dialogue. The end of the input counts as an empty
/// line.
pub fn read_reply(line: &str) -> (reply: Reply)
    ensures
        reply@ == reply_of(line@),
{
    let mut chars: Vec<char> = Vec::new();
    for c in it: line.chars()
        invariant
            it.seq() == line@,
            chars@ == line@.take(it.index()),
    {
        chars.push(c);
        assert(chars@ =~= line@.take(it.index() + 1));
    }
    assert(line@.take(line@.len() as int) == line@);
    let mut from: usize = 0;
    assert(chars@.skip(0) =~= chars@);
    while from < chars.len() && is_blank(chars[from])
        invariant
            from <= chars.len(),
            strip_front(chars@) == strip_front(chars@.skip(from as int)),
        decreases chars.len() - from,
    {
        assert(chars@.skip(from as int).skip(1) =~= chars@.skip(from + 1));
        from += 1;
    }
    let mut to: usize = chars.len();
    assert(chars@.subrange(from as int, to as int) =~= chars@.skip(from as int));
    while to > from && is_blank(chars[to - 1])
        invariant
            from <= to <= chars.len(),
            stripped(chars@) == strip_back(chars@.subrange(from as int, to as int)),
        decreases to,
    {
        assert(chars@.subrange(from as int, to as int).drop_last() =~= chars@.subrange(
            from as int,
            to - 1,
        ));
        to -= 1;
    }
    if from == to {
        return Reply::Stop;
    }
    let mut text = String::new();
    let mut i: usize = from;
    while i < to
        invariant
            from <= i <= to <= chars.len(),
            text@ == chars@.subrange(from as int, i as int),
        decreases to - i,
    {
        text.push(chars[i]);
        i += 1;
        assert(text@ =~= chars@.subrange(from as int, i as int));
    }
    Reply::Start(text)
}

} // verus!
