//! Presentation: the text shown for a batch of lines.

use vstd::prelude::*;
use crate::follow::{is_terminated, terminated};
use crate::position::ReadingDirection;
use crate::scanner::{Line, lines_view, oriented};

verus! {

/// The decimal digit for `d < 10`.
pub open spec fn digit_char(d: nat) -> char {
    seq!['0', '1', '2', '3', '4', '5', '6', '7', '8', '9'][d as int]
}

/// The decimal numeral of `n`, most significant digit first, without leading zeros.
pub open spec fn decimal_digits(n: nat) -> Seq<char>
    decreases n,
{
    if n < 10 {
        seq![digit_char(n)]
    } else {
        decimal_digits(n / 10).push(digit_char(n % 10))
    }
}

/// Relies on `usize`'s `Display` (through `to_string`): a decimal numeral with
/// no sign, padding or leading zeros.
#[verifier::external_body]
fn decimal(n: usize) -> (r: String)
    ensures
        r@ == decimal_digits(n as nat),
{
    n.to_string()
}

/// The display text of one line: its ordinal, a colon and a tab, its content,
/// and a line feed when the content has no terminator of its own.
pub open spec fn formatted(l: (int, Seq<char>)) -> Seq<char> {
    decimal_digits(l.0 as nat) + seq![':', '\t'] + l.1 + if terminated(l.1) {
        Seq::empty()
    } else {
        seq!['\n']
    }
}

/// The display text of a sequence of lines, one after another.
pub open spec fn rendered(s: Seq<(int, Seq<char>)>) -> Seq<char>
    decreases s.len(),
{
    if s.len() == 0 {
        Seq::empty()
    } else {
        rendered(s.drop_last()) + formatted(s.last())
    }
}

/// The order in which a batch in emission order for `direction` is shown:
/// stream order, or its reverse when `reverse` is set.
pub open spec fn display_order<A>(s: Seq<A>, direction: ReadingDirection, reverse: bool) -> Seq<A> {
    if reverse {
        oriented(s, direction).reverse()
    } else {
        oriented(s, direction)
    }
}

/// The display text of one line.
pub fn format_line(line: &Line) -> (r: String)
    ensures
        r@ == formatted((line.0 as int, line.1@)),
{
    let mut out = decimal(line.0);
    proof {
        reveal_strlit(":\t");
    }
    out.append(":\t");
    out.append(line.1.as_str());
    if !is_terminated(&line.1) {
        proof {
            reveal_strlit("\n");
        }
        out.append("\n");
    } else {
        assert(out@ =~= out@ + Seq::<char>::empty());
    }
    out
}

/// The text shown for `lines`, a batch in emission order for `direction`:
/// one formatted line after another, in stream order or, when `reverse` is
/// set, in reverse stream order.
pub fn render_lines(lines: &Vec<Line>, direction: ReadingDirection, reverse: bool) -> (r: String)
    ensures
        r@ == rendered(display_order(lines_view(lines@), direction, reverse)),
{
    let ghost order = display_order(lines_view(lines@), direction, reverse);
    let descending = match direction {
        ReadingDirection::TopToBottom => reverse,
        ReadingDirection::BottomToTop => !reverse,
    };
    let n = lines.len();
    proof {
        assert(order.len() == n);
        assert forall|j: int| 0 <= j < n implies #[trigger] order[j] == (if descending {
            lines_view(lines@)[n - 1 - j]
        } else {
            lines_view(lines@)[j]
        }) by {
            let v = lines_view(lines@);
            if direction == ReadingDirection::BottomToTop && reverse {
                assert(order == v.reverse().reverse());
            }
        }
    }
    let mut out = String::new();
    let mut j: usize = 0;
    while j < n
        invariant
            j <= n == lines@.len() == order.len(),
            out@ == rendered(order.take(j as int)),
            forall|i: int| 0 <= i < n ==> #[trigger] order[i] == (if descending {
                lines_view(lines@)[n - 1 - i]
            } else {
                lines_view(lines@)[i]
            }),
        decreases n - j,
    {
        let k = if descending {
            n - 1 - j
        } else {
            j
        };
        let piece = format_line(&lines[k]);
        out.append(piece.as_str());
        proof {
            assert(order.take(j as int + 1).drop_last() =~= order.take(j as int));
            assert(order[j as int] == lines_view(lines@)[k as int]);
        }
        j = j + 1;
    }
    assert(order.take(n as int) =~= order);
    out
}

} // verus!
