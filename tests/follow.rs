use tail::follow::{last_observed, reconcile};
use tail::position::ReadingDirection;
use tail::scanner::Line;

fn lines_of(items: &[(usize, &str)]) -> Vec<Line> {
    items.iter().map(|(n, s)| (*n, s.to_string())).collect()
}

fn line(n: usize, s: &str) -> Line {
    (n, s.to_string())
}

#[test]
fn terminator_completes_previous_line() {
    let (batch, last) = reconcile(
        Some(line(5, "hello")),
        lines_of(&[(1, "\n"), (2, "world\n")]),
        ReadingDirection::TopToBottom,
    );
    assert_eq!(batch, lines_of(&[(6, "world\n")]));
    assert_eq!(last, Some(line(6, "world\n")));
}

#[test]
fn lone_terminator_is_stitched_into_previous() {
    let (batch, last) = reconcile(
        Some(line(5, "hello")),
        lines_of(&[(1, "\n")]),
        ReadingDirection::TopToBottom,
    );
    assert!(batch.is_empty());
    assert_eq!(last, Some(line(5, "hello\n")));
}

#[test]
fn crlf_terminator_is_stitched() {
    let (batch, last) = reconcile(
        Some(line(2, "x")),
        lines_of(&[(1, "\r\n")]),
        ReadingDirection::BottomToTop,
    );
    assert!(batch.is_empty());
    assert_eq!(last, Some(line(2, "x\r\n")));
}

#[test]
fn bottom_to_top_stitches_last_entry() {
    let (batch, last) = reconcile(
        Some(line(5, "hello")),
        lines_of(&[(3, "again\n"), (2, "world\n"), (1, "\n")]),
        ReadingDirection::BottomToTop,
    );
    assert_eq!(batch, lines_of(&[(7, "again\n"), (6, "world\n")]));
    assert_eq!(last, Some(line(7, "again\n")));
}

#[test]
fn terminated_previous_shifts_batch() {
    let (batch, last) = reconcile(
        Some(line(4, "done\n")),
        lines_of(&[(1, "\n"), (2, "next\n")]),
        ReadingDirection::TopToBottom,
    );
    assert_eq!(batch, lines_of(&[(5, "\n"), (6, "next\n")]));
    assert_eq!(last, Some(line(6, "next\n")));
}

#[test]
fn continued_line_counts_as_new_line() {
    let (batch, last) = reconcile(
        Some(line(5, "hel")),
        lines_of(&[(1, "lo\n")]),
        ReadingDirection::TopToBottom,
    );
    assert_eq!(batch, lines_of(&[(6, "lo\n")]));
    assert_eq!(last, Some(line(6, "lo\n")));
}

#[test]
fn nothing_before_keeps_ordinals() {
    let (batch, last) = reconcile(
        None,
        lines_of(&[(2, "b\n"), (1, "a\n")]),
        ReadingDirection::BottomToTop,
    );
    assert_eq!(batch, lines_of(&[(2, "b\n"), (1, "a\n")]));
    assert_eq!(last, Some(line(2, "b\n")));
}

#[test]
fn empty_batch_keeps_previous() {
    let (batch, last) = reconcile(Some(line(9, "tail")), vec![], ReadingDirection::TopToBottom);
    assert!(batch.is_empty());
    assert_eq!(last, Some(line(9, "tail")));
    let (batch, last) = reconcile(None, vec![], ReadingDirection::BottomToTop);
    assert!(batch.is_empty());
    assert_eq!(last, None);
}

#[test]
fn latest_line_of_a_batch() {
    let v = lines_of(&[(1, "a\n"), (2, "b\n")]);
    assert_eq!(last_observed(&v, ReadingDirection::TopToBottom), Some(line(2, "b\n")));
    assert_eq!(last_observed(&v, ReadingDirection::BottomToTop), Some(line(1, "a\n")));
    assert_eq!(last_observed(&vec![], ReadingDirection::TopToBottom), None);
}
