//! Follow mode: folding each freshly scanned batch into what was observed
//! before, so that line ordinals stay contiguous across polls.

use vstd::prelude::*;
use crate::position::ReadingDirection;
use crate::scanner::{Line, line_view, lines_view, numbered, oriented};

verus! {

/// A line as a mathematical value, when there is one.
pub open spec fn opt_line_view(l: Option<Line>) -> Option<(int, Seq<char>)> {
    match l {
        Some(x) => Some(line_view(x)),
        None => None,
    }
}

/// Whether `c` ends with a line terminator.
pub open spec fn terminated(c: Seq<char>) -> bool {
    c.len() > 0 && c.last() == '\n'
}

/// Whether `c` is nothing but a line terminator.
pub open spec fn bare_terminator(c: Seq<char>) -> bool {
    c == seq!['\n'] || c == seq!['\r', '\n']
}

/// The position in a batch of its earliest line in the stream.
pub open spec fn earliest_at(len: int, direction: ReadingDirection) -> int {
    match direction {
        ReadingDirection::TopToBottom => 0,
        ReadingDirection::BottomToTop => len - 1,
    }
}

/// The position in a batch of its latest line in the stream.
pub open spec fn latest_at(len: int, direction: ReadingDirection) -> int {
    match direction {
        ReadingDirection::TopToBottom => len - 1,
        ReadingDirection::BottomToTop => 0,
    }
}

/// Whether the earliest line of `batch` completes `previous`, whose content
/// lacked a terminator.
pub open spec fn stitches(
    previous: Option<(int, Seq<char>)>,
    batch: Seq<(int, Seq<char>)>,
    direction: ReadingDirection,
) -> bool {
    &&& previous matches Some(p) && !terminated(p.1)
    &&& batch.len() > 0
    &&& bare_terminator(batch[earliest_at(batch.len() as int, direction)].1)
}

/// `batch` with every ordinal raised by `shift`.
pub open spec fn shifted(batch: Seq<(int, Seq<char>)>, shift: int) -> Seq<(int, Seq<char>)> {
    batch.map_values(|l: (int, Seq<char>)| (l.0 + shift, l.1))
}

/// The batch renumbered after `previous`, and the last line observed after it.
pub open spec fn reconciled(
    previous: Option<(int, Seq<char>)>,
    batch: Seq<(int, Seq<char>)>,
    direction: ReadingDirection,
) -> (Seq<(int, Seq<char>)>, Option<(int, Seq<char>)>) {
    let (lines, before) = if stitches(previous, batch, direction) {
        let p = previous->0;
        let k = earliest_at(batch.len() as int, direction);
        (shifted(batch.remove(k), p.0 - 1), Some((p.0, p.1 + batch[k].1)))
    } else {
        match previous {
            Some(p) => (shifted(batch, p.0), previous),
            None => (batch, previous),
        }
    };
    if lines.len() > 0 {
        (lines, Some(lines[latest_at(lines.len() as int, direction)]))
    } else {
        (lines, before)
    }
}

/// The latest line in the stream of a batch in emission order for `direction`.
pub fn last_observed(lines: &Vec<Line>, direction: ReadingDirection) -> (r: Option<Line>)
    ensures
        lines@.len() == 0 ==> r is None,
        lines@.len() > 0 ==> r == Some(lines@[latest_at(lines@.len() as int, direction)]),
{
    if lines.len() == 0 {
        return None;
    }
    let k = match direction {
        ReadingDirection::TopToBottom => lines.len() - 1,
        ReadingDirection::BottomToTop => 0,
    };
    let l = &lines[k];
    Some((l.0, l.1.clone()))
}

/// Whether `s` is `"\n"` or `"\r\n"`.
fn is_bare_terminator(s: &String) -> (r: bool)
    ensures
        r == bare_terminator(s@),
{
    let t = s.as_str();
    let n = t.unicode_len();
    if n == 1 {
        let r = t.get_char(0) == '\n';
        assert(r == (t@ =~= seq!['\n']));
        assert(t@ != seq!['\r', '\n']) by {
            assert(seq!['\r', '\n'].len() == 2);
        }
        r
    } else if n == 2 {
        let r = t.get_char(0) == '\r' && t.get_char(1) == '\n';
        assert(r == (t@ =~= seq!['\r', '\n']));
        assert(t@ != seq!['\n']) by {
            assert(seq!['\n'].len() == 1);
        }
        r
    } else {
        assert(seq!['\n'].len() == 1);
        assert(seq!['\r', '\n'].len() == 2);
        false
    }
}

/// Whether `s` ends with `'\n'`.
pub(crate) fn is_terminated(s: &String) -> (r: bool)
    ensures
        r == terminated(s@),
{
    let t = s.as_str();
    let n = t.unicode_len();
    n > 0 && t.get_char(n - 1) == '\n'
}

/// Folds `batch`, freshly scanned from where the previous scan stopped and in
/// emission order for `direction`, into the state left by earlier scans, whose
/// latest line is `previous`. Returns the batch renumbered to continue the
/// ordinals of the stream, and the latest line observed after it. When
/// `previous` lacked a terminator and the batch's earliest line is only one,
/// that line completes `previous` instead of counting as a line of its own.
pub fn reconcile(previous: Option<Line>, batch: Vec<Line>, direction: ReadingDirection) -> (r: (
    Vec<Line>,
    Option<Line>,
))
    requires
        previous matches Some(p) ==> p.0 >= 1 && forall|i: int|
            0 <= i < batch@.len() ==> #[trigger] batch@[i].0 + p.0 <= usize::MAX,
    ensures
        (lines_view(r.0@), opt_line_view(r.1)) == reconciled(
            opt_line_view(previous),
            lines_view(batch@),
            direction,
        ),
{
    let ghost pv = opt_line_view(previous);
    let ghost bv = lines_view(batch@);
    let mut rest = batch;
    let mut before: Option<Line> = None;
    let mut shift: usize = 0;
    let mut stitched = false;
    match previous {
        None => {},
        Some(p) => {
            let (n, mut content) = p;
            shift = n;
            if !is_terminated(&content) && rest.len() > 0 {
                let k = match direction {
                    ReadingDirection::TopToBottom => 0,
                    ReadingDirection::BottomToTop => rest.len() - 1,
                };
                if is_bare_terminator(&rest[k].1) {
                    let tail = rest.remove(k);
                    assert(tail.1@ == bv[k as int].1);
                    content.append(tail.1.as_str());
                    shift = n - 1;
                    stitched = true;
                    assert(lines_view(rest@) =~= bv.remove(k as int));
                }
            }
            before = Some((n, content));
        },
    }
    assert(stitched == stitches(pv, bv, direction));
    let mut out: Vec<Line> = Vec::new();
    let mut i: usize = 0;
    while i < rest.len()
        invariant
            i <= rest@.len(),
            forall|j: int| 0 <= j < rest@.len() ==> #[trigger] rest@[j].0 + shift <= usize::MAX,
            lines_view(out@) == shifted(lines_view(rest@), shift as int).take(i as int),
        decreases rest@.len() - i,
    {
        let l = &rest[i];
        let ghost before_out = lines_view(out@);
        out.push((l.0 + shift, l.1.clone()));
        proof {
            let sh = shifted(lines_view(rest@), shift as int);
            assert(lines_view(rest@)[i as int] == line_view(rest@[i as int]));
            assert(sh[i as int] == (rest@[i as int].0 + shift, rest@[i as int].1@));
            assert(lines_view(out@) =~= before_out.push(sh[i as int]));
        }
        i = i + 1;
        assert(lines_view(out@) =~= shifted(lines_view(rest@), shift as int).take(i as int));
    }
    assert(lines_view(out@) =~= shifted(lines_view(rest@), shift as int));
    proof {
        let exp = reconciled(pv, bv, direction);
        if stitched {
            let k = earliest_at(bv.len() as int, direction);
            let p = pv->0;
            assert(opt_line_view(before) == Some((p.0, p.1 + bv[k].1)));
        } else {
            assert(opt_line_view(before) == pv);
        }
        assert(lines_view(out@) == exp.0);
    }
    let last = if out.len() > 0 {
        let r = last_observed(&out, direction);
        assert(lines_view(out@)[latest_at(out@.len() as int, direction)] == line_view(
            out@[latest_at(out@.len() as int, direction)],
        ));
        r
    } else {
        before
    };
    (out, last)
}

/// Ordinals stay contiguous across polls: when a fresh scan of every line
/// after the cursor, numbered from 1, is folded into a state whose latest line
/// has ordinal `p.0`, the lines that come out carry ordinals `p.0 + 1`,
/// `p.0 + 2`, ... in stream order, whether or not the first of them completed
/// `p`.
pub proof fn lemma_follow_contiguous(
    p: (int, Seq<char>),
    lines: Seq<Seq<char>>,
    direction: ReadingDirection,
)
    requires
        p.0 >= 1,
    ensures
        ({
            let out = reconciled(
                Some(p),
                oriented(numbered(lines, 1, lines.len() as int), direction),
                direction,
            ).0;
            forall|j: int|
                0 <= j < out.len() ==> #[trigger] oriented(out, direction)[j].0 == p.0 + 1 + j
        }),
{
    let m = lines.len() as int;
    let batch = oriented(numbered(lines, 1, m), direction);
    let out = reconciled(Some(p), batch, direction).0;
    assert(batch.len() == m);
    match direction {
        ReadingDirection::TopToBottom => {
            assert forall|j: int| 0 <= j < out.len() implies #[trigger] oriented(
                out,
                direction,
            )[j].0 == p.0 + 1 + j by {
                if stitches(Some(p), batch, direction) {
                    assert(batch.remove(0)[j] == batch[j + 1]);
                }
            }
        },
        ReadingDirection::BottomToTop => {
            assert forall|j: int| 0 <= j < out.len() implies #[trigger] oriented(
                out,
                direction,
            )[j].0 == p.0 + 1 + j by {
                if stitches(Some(p), batch, direction) {
                    assert(out.len() == m - 1);
                    assert(batch.remove(m - 1)[m - 2 - j] == batch[m - 2 - j]);
                } else {
                    assert(out.len() == m);
                }
            }
        },
    }
}

} // verus!
