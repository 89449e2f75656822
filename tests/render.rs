use tail::position::ReadingDirection;
use tail::render::{format_line, render_lines};
use tail::scanner::{read_lines, Line};
use tail::position::Position;

fn lines_of(items: &[(usize, &str)]) -> Vec<Line> {
    items.iter().map(|(n, s)| (*n, s.to_string())).collect()
}

#[test]
fn format_adds_missing_newline() {
    assert_eq!(format_line(&(7, "abc".to_string())), "7:\tabc\n");
    assert_eq!(format_line(&(7, "abc\n".to_string())), "7:\tabc\n");
    assert_eq!(format_line(&(1203, "x\r\n".to_string())), "1203:\tx\r\n");
    assert_eq!(format_line(&(0, String::new())), "0:\t\n");
}

#[test]
fn render_shows_stream_order() {
    let up = lines_of(&[(2, "b\n"), (1, "a")]);
    assert_eq!(render_lines(&up, ReadingDirection::BottomToTop, false), "1:\ta\n2:\tb\n");
    assert_eq!(render_lines(&up, ReadingDirection::BottomToTop, true), "2:\tb\n1:\ta\n");
    let down = lines_of(&[(10, "x\n"), (11, "y\n")]);
    assert_eq!(render_lines(&down, ReadingDirection::TopToBottom, false), "10:\tx\n11:\ty\n");
    assert_eq!(render_lines(&down, ReadingDirection::TopToBottom, true), "11:\ty\n10:\tx\n");
    assert_eq!(render_lines(&vec![], ReadingDirection::TopToBottom, false), "");
}

#[test]
fn last_two_lines_shown_oldest_first() {
    let r = read_lines(
        b"a\nb\nc\nd\n",
        Position::FromEnd(0),
        Position::FromEnd(2),
        ReadingDirection::BottomToTop,
    )
    .unwrap();
    assert_eq!(render_lines(&r, ReadingDirection::BottomToTop, false), "3:\tc\n4:\td\n");
}
