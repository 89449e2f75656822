//! Anchored line positions, reading directions, and the window resolver that
//! turns a requested pair of bounds into the canonical pair a forward scan uses.

use vstd::prelude::*;

verus! {

/// The order in which the lines of a window are emitted.
#[derive(Debug, PartialEq, Eq, Clone, Copy, Structural)]
pub enum ReadingDirection {
    TopToBottom,
    BottomToTop,
}

/// A line offset anchored at the start (`FromBegin`) or at the end (`FromEnd`)
/// of a stream. `FromBegin(0)` is the boundary before the first line and
/// `FromEnd(0)` the boundary after the last one.
#[derive(Debug, PartialEq, Eq, Clone, Copy, Structural)]
pub enum Position {
    FromBegin(usize),
    FromEnd(usize),
}

/// The canonical scan bounds for a request, or `None` when the request is
/// degenerate (empty whatever the stream holds).
pub open spec fn resolved(start: Position, stop: Position, direction: ReadingDirection) -> Option<
    (Position, Position),
> {
    match direction {
        ReadingDirection::TopToBottom => match (start, stop) {
            (Position::FromBegin(a), Position::FromBegin(b)) => if a >= b {
                None
            } else {
                Some((start, stop))
            },
            (Position::FromEnd(a), Position::FromEnd(b)) => if a <= b {
                None
            } else {
                Some((start, stop))
            },
            _ => Some((start, stop)),
        },
        ReadingDirection::BottomToTop => match (start, stop) {
            (Position::FromBegin(a), Position::FromBegin(b)) => if a <= b {
                None
            } else {
                Some((stop, start))
            },
            (Position::FromEnd(a), Position::FromEnd(b)) => if a >= b {
                None
            } else {
                Some((stop, start))
            },
            _ => Some((stop, start)),
        },
    }
}

/// Normalizes `(start, stop)` for a forward scan in `direction`; `None` marks a
/// window that is empty on every stream. Performs no I/O.
pub fn resolve_window(start: Position, stop: Position, direction: ReadingDirection) -> (r: Option<
    (Position, Position),
>)
    ensures
        r == resolved(start, stop, direction),
{
    match direction {
        ReadingDirection::TopToBottom => match (start, stop) {
            (Position::FromBegin(a), Position::FromBegin(b)) => {
                if a >= b {
                    None
                } else {
                    Some((start, stop))
                }
            },
            (Position::FromEnd(a), Position::FromEnd(b)) => {
                if a <= b {
                    None
                } else {
                    Some((start, stop))
                }
            },
            _ => Some((start, stop)),
        },
        ReadingDirection::BottomToTop => match (start, stop) {
            (Position::FromBegin(a), Position::FromBegin(b)) => {
                if a <= b {
                    None
                } else {
                    Some((stop, start))
                }
            },
            (Position::FromEnd(a), Position::FromEnd(b)) => {
                if a >= b {
                    None
                } else {
                    Some((stop, start))
                }
            },
            _ => Some((stop, start)),
        },
    }
}

/// The request for the first `n` lines (`head` set) or the last `n` lines.
pub fn initial_window(n: usize, head: bool) -> (r: (Position, Position, ReadingDirection))
    ensures
        head ==> r == (Position::FromBegin(0), Position::FromBegin(n), ReadingDirection::TopToBottom),
        !head ==> r == (Position::FromEnd(0), Position::FromEnd(n), ReadingDirection::BottomToTop),
{
    if head {
        (Position::FromBegin(0), Position::FromBegin(n), ReadingDirection::TopToBottom)
    } else {
        (Position::FromEnd(0), Position::FromEnd(n), ReadingDirection::BottomToTop)
    }
}

/// The request used on each follow cycle: every line from the stream's current
/// cursor to its end, in `direction`.
pub fn follow_window(direction: ReadingDirection) -> (r: (Position, Position))
    ensures
        direction == ReadingDirection::TopToBottom ==> r == (Position::FromBegin(0), Position::FromEnd(0)),
        direction == ReadingDirection::BottomToTop ==> r == (Position::FromEnd(0), Position::FromBegin(0)),
        resolved(r.0, r.1, direction) == Some((Position::FromBegin(0), Position::FromEnd(0))),
{
    match direction {
        ReadingDirection::TopToBottom => (Position::FromBegin(0), Position::FromEnd(0)),
        ReadingDirection::BottomToTop => (Position::FromEnd(0), Position::FromBegin(0)),
    }
}

} // verus!
