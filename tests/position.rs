use tail::position::{follow_window, initial_window, resolve_window, Position, ReadingDirection};
use tail::position::Position::{FromBegin as B, FromEnd as E};

#[test]
fn head_and_tail_requests() {
    assert_eq!(
        initial_window(10, true),
        (Position::FromBegin(0), Position::FromBegin(10), ReadingDirection::TopToBottom)
    );
    assert_eq!(
        initial_window(3, false),
        (Position::FromEnd(0), Position::FromEnd(3), ReadingDirection::BottomToTop)
    );
}

#[test]
fn follow_reads_everything_after_cursor() {
    assert_eq!(
        follow_window(ReadingDirection::TopToBottom),
        (Position::FromBegin(0), Position::FromEnd(0))
    );
    assert_eq!(
        follow_window(ReadingDirection::BottomToTop),
        (Position::FromEnd(0), Position::FromBegin(0))
    );
}

#[test]
fn resolver_cases() {
    let down = ReadingDirection::TopToBottom;
    let up = ReadingDirection::BottomToTop;
    assert_eq!(resolve_window(B(3), B(3), down), None);
    assert_eq!(resolve_window(B(4), B(3), down), None);
    assert_eq!(resolve_window(B(1), B(3), down), Some((B(1), B(3))));
    assert_eq!(resolve_window(E(1), E(1), down), None);
    assert_eq!(resolve_window(E(3), E(1), down), Some((E(3), E(1))));
    assert_eq!(resolve_window(B(0), E(0), down), Some((B(0), E(0))));
    assert_eq!(resolve_window(B(2), B(2), up), None);
    assert_eq!(resolve_window(B(0), B(2), up), None);
    assert_eq!(resolve_window(B(5), B(2), up), Some((B(2), B(5))));
    assert_eq!(resolve_window(E(0), E(2), up), Some((E(2), E(0))));
    assert_eq!(resolve_window(E(2), E(0), up), None);
    assert_eq!(resolve_window(E(0), B(0), up), Some((B(0), E(0))));
}
