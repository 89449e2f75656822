//! The single forward pass that fills a window from a stream of lines.
//!
//! A [`Scanner`] is driven one line at a time by whoever owns the stream; it
//! keeps only the lines that may still belong to the window and hands back the
//! finished window, or everything retained so far when a read fails.

use vstd::prelude::*;
use std::collections::VecDeque;
use vstd::utf8::{decode_utf8, valid_utf8};
use crate::position::{Position, ReadingDirection, resolved};

verus! {

/// A numbered line: its 1-based ordinal in the stream as scanned, and its
/// content including the line terminator when there is one.
pub type Line = (usize, String);

/// A line as a mathematical value.
pub open spec fn line_view(l: Line) -> (int, Seq<char>) {
    (l.0 as int, l.1@)
}

/// A sequence of lines as mathematical values.
pub open spec fn lines_view(v: Seq<Line>) -> Seq<(int, Seq<char>)> {
    v.map_values(|l: Line| line_view(l))
}

/// Lines `first..=last` of `lines` (1-based), each paired with its ordinal.
pub open spec fn numbered(lines: Seq<Seq<char>>, first: int, last: int) -> Seq<(int, Seq<char>)> {
    Seq::new(
        if last >= first {
            (last - first + 1) as nat
        } else {
            0
        },
        |j: int| (first + j, lines[first + j - 1]),
    )
}

/// `s` in emission order for `direction`.
pub open spec fn oriented<A>(s: Seq<A>, direction: ReadingDirection) -> Seq<A> {
    match direction {
        ReadingDirection::TopToBottom => s,
        ReadingDirection::BottomToTop => s.reverse(),
    }
}

/// The ordinal of the first line of the window that starts at `start`, in a
/// stream of which the scan reads `n` lines. `FromBegin(a)` is the boundary
/// after line `a`; `FromEnd(a)` the boundary `a` lines before the last line
/// read (and never before the first line).
pub open spec fn lower_line(start: Position, n: int) -> int {
    match start {
        Position::FromBegin(a) => a + 1,
        Position::FromEnd(a) => if n - a + 1 > 1 {
            n - a + 1
        } else {
            1
        },
    }
}

/// The ordinal of the last line of the window that stops at `stop`, in a
/// stream of which the scan reads `n` lines.
pub open spec fn upper_line(stop: Position, n: int) -> int {
    match stop {
        Position::FromBegin(_) => n,
        Position::FromEnd(m) => n - m,
    }
}

/// What a scan whose canonical lower bound is `start` holds after reading the
/// first `k` of `lines`, oldest first: every line read from the lower bound on.
pub open spec fn retained(lines: Seq<Seq<char>>, start: Position, k: int) -> Seq<
    (int, Seq<char>),
> {
    numbered(lines, lower_line(start, k), k)
}

/// How many lines a scan reads from a stream of `total` lines before it stops.
pub open spec fn read_limit(stop: Position, total: int) -> int {
    match stop {
        Position::FromBegin(p) => if (p as int) < total {
            p as int
        } else {
            total
        },
        Position::FromEnd(_) => total,
    }
}

/// The lines that `(start, stop, direction)` selects from `lines`, in emission
/// order: with `n` the number of lines the scan reads (all of them, or up to a
/// `FromBegin` stop), lines `lower_line(s, n) ..= upper_line(t, n)` between the
/// canonical bounds `(s, t)`.
pub open spec fn window(
    lines: Seq<Seq<char>>,
    start: Position,
    stop: Position,
    direction: ReadingDirection,
) -> Seq<(int, Seq<char>)> {
    match resolved(start, stop, direction) {
        None => Seq::empty(),
        Some((s, t)) => {
            let n = read_limit(t, lines.len() as int);
            oriented(numbered(lines, lower_line(s, n), upper_line(t, n)), direction)
        },
    }
}

/// Whether a scan of `(start, stop, direction)` that has read `count` lines
/// reads another one.
pub open spec fn scan_continues(
    start: Position,
    stop: Position,
    direction: ReadingDirection,
    count: int,
) -> bool {
    match resolved(start, stop, direction) {
        None => false,
        Some((_, t)) => match t {
            Position::FromBegin(p) => count < p,
            Position::FromEnd(_) => true,
        },
    }
}

/// What a scan of `(start, stop, direction)` holds, in emission order, after
/// reading the first `k` of `lines`.
pub open spec fn partial_window(
    lines: Seq<Seq<char>>,
    start: Position,
    stop: Position,
    direction: ReadingDirection,
    k: int,
) -> Seq<(int, Seq<char>)> {
    match resolved(start, stop, direction) {
        None => Seq::empty(),
        Some((s, t)) => oriented(retained(lines, s, k), direction),
    }
}

/// A read that failed part way through a scan: the lines retained before it,
/// in emission order, and the ordinal of the line whose read failed.
#[derive(Debug)]
pub struct ScanError {
    pub valid_reads: Vec<Line>,
    pub error_line: usize,
}

/// The state of one forward scan.
pub struct Scanner {
    bounds: Option<(Position, Position)>,
    direction: ReadingDirection,
    buffer: VecDeque<Line>,
    line_count: usize,
    request: Ghost<(Position, Position)>,
    seen: Ghost<Seq<Seq<char>>>,
}

impl Scanner {
    /// The requested lower bound.
    pub closed spec fn start(&self) -> Position {
        self.request@.0
    }

    /// The requested upper bound.
    pub closed spec fn stop(&self) -> Position {
        self.request@.1
    }

    pub closed spec fn direction(&self) -> ReadingDirection {
        self.direction
    }

    /// Every line handed to the scan so far, in stream order.
    pub closed spec fn lines_read(&self) -> Seq<Seq<char>> {
        self.seen@
    }

    pub closed spec fn wf(&self) -> bool {
        &&& self.line_count == self.seen@.len()
        &&& self.bounds == resolved(self.request@.0, self.request@.1, self.direction)
        &&& match self.bounds {
            None => self.line_count == 0 && self.buffer@.len() == 0,
            Some((s, t)) => {
                &&& (match t {
                    Position::FromBegin(p) => self.line_count <= p,
                    Position::FromEnd(_) => true,
                })
                &&& lines_view(self.buffer@) == retained(self.seen@, s, self.line_count as int)
            },
        }
    }

    /// What the scan has retained so far, in emission order.
    pub open spec fn partial(&self) -> Seq<(int, Seq<char>)> {
        partial_window(
            self.lines_read(),
            self.start(),
            self.stop(),
            self.direction(),
            self.lines_read().len() as int,
        )
    }

    /// Starts a scan of the window `(start, stop)` read in `direction`.
    pub fn new(start: Position, stop: Position, direction: ReadingDirection) -> (r: Scanner)
        ensures
            r.wf(),
            r.start() == start,
            r.stop() == stop,
            r.direction() == direction,
            r.lines_read() == Seq::<Seq<char>>::empty(),
    {
        let bounds = crate::position::resolve_window(start, stop, direction);
        let r = Scanner {
            bounds,
            direction,
            buffer: VecDeque::new(),
            line_count: 0,
            request: Ghost((start, stop)),
            seen: Ghost(Seq::empty()),
        };
        proof {
            if let Some((s, _)) = bounds {
                assert(lines_view(r.buffer@) =~= retained(r.seen@, s, 0));
            }
        }
        r
    }

    /// How many lines the scan has been handed.
    pub fn line_count(&self) -> (r: usize)
        requires
            self.wf(),
        ensures
            r == self.lines_read().len(),
    {
        self.line_count
    }

    /// Whether the scan wants the next line of the stream.
    pub fn wants_more(&self) -> (r: bool)
        requires
            self.wf(),
        ensures
            r == scan_continues(
                self.start(),
                self.stop(),
                self.direction(),
                self.lines_read().len() as int,
            ),
    {
        match self.bounds {
            None => false,
            Some((_, Position::FromBegin(p))) => self.line_count < p,
            Some((_, Position::FromEnd(_))) => true,
        }
    }

    /// Hands the scan the next line of the stream.
    pub fn feed(&mut self, content: String)
        requires
            old(self).wf(),
            scan_continues(
                old(self).start(),
                old(self).stop(),
                old(self).direction(),
                old(self).lines_read().len() as int,
            ),
            old(self).lines_read().len() < usize::MAX,
        ensures
            final(self).wf(),
            final(self).start() == old(self).start(),
            final(self).stop() == old(self).stop(),
            final(self).direction() == old(self).direction(),
            final(self).lines_read() == old(self).lines_read().push(content@),
    {
        let ghost old_buffer = lines_view(self.buffer@);
        let ghost k = self.line_count as int;
        let (s, t) = match self.bounds {
            Some(b) => b,
            None => {
                return;
            },
        };
        self.line_count = self.line_count + 1;
        self.seen = Ghost(self.seen@.push(content@));
        let ghost seen = self.seen@;
        assert(forall|i: int| 0 <= i < k ==> seen[i] == old(self).seen@[i]);
        let skip = match s {
            Position::FromBegin(pos) => self.line_count <= pos,
            Position::FromEnd(_) => false,
        };
        if skip {
            assert(lines_view(self.buffer@) =~= retained(seen, s, k + 1));
            return;
        }
        let ghost line = (self.line_count, content);
        self.buffer.push_back((self.line_count, content));
        assert(lines_view(self.buffer@) =~= old_buffer.push(line_view(line)));
        let over = match s {
            Position::FromBegin(_) => false,
            Position::FromEnd(a) => self.buffer.len() > a,
        };
        if over {
            let ghost pushed = lines_view(self.buffer@);
            self.buffer.pop_front();
            assert(lines_view(self.buffer@) =~= pushed.subrange(1, pushed.len() as int));
        }
        assert(lines_view(self.buffer@) =~= retained(seen, s, k + 1));
    }

    /// Ends the scan at the end of the stream and returns the window in
    /// emission order.
    pub fn finish(self) -> (r: Vec<Line>)
        requires
            self.wf(),
        ensures
            lines_view(r@) == window(self.lines_read(), self.start(), self.stop(), self.direction()),
    {
        let ghost n = self.line_count as int;
        let mut buffer = self.buffer;
        match self.bounds {
            None => {
                return Vec::new();
            },
            Some((s, t)) => {
                assert(read_limit(t, n) == n);
                if let Position::FromEnd(m) = t {
                    let ghost before = lines_view(buffer@);
                    let ghost f = lower_line(s, n);
                    assert(before.len() == buffer@.len());
                    assert(before.len() == (if n >= f {
                        n - f + 1
                    } else {
                        0
                    }));
                    let keep = if buffer.len() > m {
                        buffer.len() - m
                    } else {
                        0
                    };
                    buffer.truncate(keep);
                    assert(lines_view(buffer@) =~= before.subrange(0, keep as int));
                    assert(lines_view(buffer@) =~= numbered(
                        self.seen@,
                        lower_line(s, n),
                        upper_line(t, n),
                    ));
                } else {
                    assert(lines_view(buffer@) =~= numbered(
                        self.seen@,
                        lower_line(s, n),
                        upper_line(t, n),
                    ));
                }
            },
        }
        in_order(buffer, self.direction)
    }

    /// Ends the scan because reading the next line failed.
    pub fn fail(self) -> (r: ScanError)
        requires
            self.wf(),
            self.lines_read().len() < usize::MAX,
        ensures
            r.error_line == self.lines_read().len() + 1,
            lines_view(r.valid_reads@) == self.partial(),
    {
        let error_line = self.line_count + 1;
        let valid_reads = in_order(self.buffer, self.direction);
        proof {
            if self.bounds is None {
                assert(lines_view(valid_reads@) =~= Seq::<(int, Seq<char>)>::empty());
            }
            assert(lines_view(valid_reads@) == self.partial());
        }
        ScanError { valid_reads, error_line }
    }
}

/// Empties `buffer` into a vector in emission order for `direction`.
fn in_order(buffer: VecDeque<Line>, direction: ReadingDirection) -> (r: Vec<Line>)
    ensures
        lines_view(r@) == oriented(lines_view(buffer@), direction),
{
    let ghost all = buffer@;
    let mut rest = buffer;
    let mut out: Vec<Line> = Vec::new();
    match direction {
        ReadingDirection::TopToBottom => {
            while rest.len() > 0
                invariant
                    all == out@ + rest@,
                decreases rest@.len(),
            {
                match rest.pop_front() {
                    Some(l) => {
                        out.push(l);
                    },
                    None => {},
                }
                assert(all =~= out@ + rest@);
            }
            assert(out@ =~= all);
        },
        ReadingDirection::BottomToTop => {
            while rest.len() > 0
                invariant
                    all == rest@ + out@.reverse(),
                decreases rest@.len(),
            {
                match rest.pop_back() {
                    Some(l) => {
                        out.push(l);
                    },
                    None => {},
                }
                assert(all =~= rest@ + out@.reverse());
            }
            assert(out@ =~= all.reverse());
        },
    }
    assert(lines_view(out@) =~= oriented(lines_view(all), direction));
    out
}

} // verus!

verus! {

/// The end of the line that starts at byte `from`: just past the next `\n`,
/// or the end of `b`.
pub open spec fn line_end(b: Seq<u8>, from: int) -> int
    decreases b.len() - from,
{
    if from >= b.len() {
        b.len() as int
    } else if b[from] == 10u8 {
        from + 1
    } else {
        line_end(b, from + 1)
    }
}

/// The lines of `b` from byte `from` on, as a line reader delivers them: each
/// runs up to and including a `\n`, and bytes after the last `\n` form a final line.
pub open spec fn split_from(b: Seq<u8>, from: int) -> Seq<Seq<u8>>
    decreases b.len() - from,
{
    if from < 0 || from >= b.len() {
        Seq::empty()
    } else {
        let e = line_end(b, from);
        if e <= from || e > b.len() {
            Seq::empty()
        } else {
            seq![b.subrange(from, e)] + split_from(b, e)
        }
    }
}

/// The raw lines of a stream.
pub open spec fn stream_lines(data: Seq<u8>) -> Seq<Seq<u8>> {
    split_from(data, 0)
}

/// The text of each raw line.
pub open spec fn decoded(raw: Seq<Seq<u8>>) -> Seq<Seq<char>> {
    raw.map_values(|r: Seq<u8>| decode_utf8(r))
}

/// How many lines a scan of `(start, stop, direction)` reads from a stream of
/// `total` lines when every read succeeds.
pub open spec fn lines_scanned(
    start: Position,
    stop: Position,
    direction: ReadingDirection,
    total: int,
) -> int {
    match resolved(start, stop, direction) {
        None => 0,
        Some((_, t)) => read_limit(t, total),
    }
}

/// The outcome of scanning `data` for `(start, stop, direction)`: the window
/// when each line the scan reads is valid UTF-8; otherwise the failure at the
/// first line that is not, with what was retained before it.
pub open spec fn scan_outcome(
    data: Seq<u8>,
    start: Position,
    stop: Position,
    direction: ReadingDirection,
    r: Result<Vec<Line>, ScanError>,
) -> bool {
    let raw = stream_lines(data);
    let n = lines_scanned(start, stop, direction, raw.len() as int);
    match r {
        Ok(v) => {
            &&& forall|i: int| 0 <= i < n ==> valid_utf8(#[trigger] raw[i])
            &&& lines_view(v@) == window(decoded(raw), start, stop, direction)
        },
        Err(e) => {
            let f = e.error_line - 1;
            &&& 0 <= f < n
            &&& !valid_utf8(raw[f])
            &&& forall|i: int| 0 <= i < f ==> valid_utf8(#[trigger] raw[i])
            &&& lines_view(e.valid_reads@) == partial_window(decoded(raw), start, stop, direction, f)
        },
    }
}

proof fn lemma_line_end_bounds(b: Seq<u8>, from: int)
    requires
        0 <= from < b.len(),
    ensures
        from < line_end(b, from) <= b.len(),
    decreases b.len() - from,
{
    if b[from] != 10u8 {
        if from + 1 < b.len() {
            lemma_line_end_bounds(b, from + 1);
        } else {
            assert(line_end(b, from + 1) == b.len());
        }
    }
}

proof fn lemma_split_step(b: Seq<u8>, from: int)
    requires
        0 <= from < b.len(),
    ensures
        split_from(b, from) == seq![b.subrange(from, line_end(b, from))] + split_from(
            b,
            line_end(b, from),
        ),
{
    lemma_line_end_bounds(b, from);
}

proof fn lemma_split_len(b: Seq<u8>, from: int)
    requires
        0 <= from <= b.len(),
    ensures
        split_from(b, from).len() <= b.len() - from,
    decreases b.len() - from,
{
    if from < b.len() {
        lemma_split_step(b, from);
        lemma_line_end_bounds(b, from);
        lemma_split_len(b, line_end(b, from));
    }
}

/// `retained` reads only the first `k` lines.
proof fn lemma_retained_prefix(lines: Seq<Seq<char>>, s: Position, k: int, m: int)
    requires
        0 <= k <= m <= lines.len(),
    ensures
        retained(lines, s, k) == retained(lines.take(m), s, k),
{
    assert(retained(lines, s, k) =~= retained(lines.take(m), s, k));
}

/// A window reads only the lines its scan reads.
proof fn lemma_window_prefix(
    lines: Seq<Seq<char>>,
    start: Position,
    stop: Position,
    direction: ReadingDirection,
    m: int,
)
    requires
        lines_scanned(start, stop, direction, lines.len() as int) <= m <= lines.len(),
    ensures
        window(lines, start, stop, direction) == window(lines.take(m), start, stop, direction),
{
    if let Some((s, t)) = resolved(start, stop, direction) {
        let n = read_limit(t, lines.len() as int);
        assert(read_limit(t, m) == n);
        assert(numbered(lines, lower_line(s, n), upper_line(t, n)) =~= numbered(
            lines.take(m),
            lower_line(s, n),
            upper_line(t, n),
        ));
    }
}

/// Relies on `String::from_utf8`: it accepts exactly the valid UTF-8 byte
/// sequences, and decodes them.
#[verifier::external_body]
fn decode_line(bytes: Vec<u8>) -> (r: Option<String>)
    ensures
        r is Some <==> valid_utf8(bytes@),
        r matches Some(s) ==> s@ == decode_utf8(bytes@),
{
    String::from_utf8(bytes).ok()
}

/// Scans the lines of `data` in one forward pass and returns the window
/// `(start, stop)` in the emission order of `direction`. A line that is not
/// valid UTF-8 is a failed read: the result is then the lines retained before
/// it and its ordinal.
pub fn read_lines(
    data: &[u8],
    start: Position,
    stop: Position,
    direction: ReadingDirection,
) -> (r: Result<Vec<Line>, ScanError>)
    ensures
        scan_outcome(data@, start, stop, direction, r),
{
    let ghost b = data@;
    let ghost raw = stream_lines(b);
    let mut scanner = Scanner::new(start, stop, direction);
    let mut pos: usize = 0;
    proof {
        lemma_split_len(b, 0);
        assert(raw.subrange(0, raw.len() as int) =~= raw);
    }
    loop
        invariant
            scanner.wf(),
            scanner.start() == start,
            scanner.stop() == stop,
            scanner.direction() == direction,
            0 <= pos <= b.len(),
            b == data@,
            raw == stream_lines(b),
            scanner.lines_read().len() <= pos,
            scanner.lines_read().len() <= raw.len(),
            raw.subrange(scanner.lines_read().len() as int, raw.len() as int) == split_from(
                b,
                pos as int,
            ),
            scanner.lines_read() == decoded(raw).take(scanner.lines_read().len() as int),
            forall|i: int| 0 <= i < scanner.lines_read().len() ==> valid_utf8(#[trigger] raw[i]),
        decreases b.len() - pos,
    {
        let ghost k = scanner.lines_read().len() as int;
        let more = scanner.wants_more();
        if !more || pos >= data.len() {
            proof {
                assert(decoded(raw).len() == raw.len());
                if pos >= b.len() {
                    assert(split_from(b, pos as int) =~= Seq::<Seq<u8>>::empty());
                    assert(raw.subrange(k, raw.len() as int).len() == 0);
                    assert(k == raw.len());
                }
                assert(lines_scanned(start, stop, direction, raw.len() as int) <= k);
                lemma_window_prefix(decoded(raw), start, stop, direction, k);
            }
            return Ok(scanner.finish());
        }
        let mut j: usize = pos;
        while j < data.len() && data[j] != 10u8
            invariant
                pos <= j <= data@.len(),
                pos < data@.len(),
                b == data@,
                line_end(b, pos as int) == line_end(b, j as int),
            decreases data@.len() - j,
        {
            j = j + 1;
        }
        let end: usize = if j < data.len() {
            j + 1
        } else {
            j
        };
        assert(end == line_end(b, pos as int));
        let mut bytes: Vec<u8> = Vec::new();
        let mut i: usize = pos;
        while i < end
            invariant
                pos <= i <= end <= data@.len(),
                b == data@,
                bytes@ == b.subrange(pos as int, i as int),
            decreases end - i,
        {
            bytes.push(data[i]);
            i = i + 1;
            assert(bytes@ =~= b.subrange(pos as int, i as int));
        }
        proof {
            lemma_split_step(b, pos as int);
            lemma_line_end_bounds(b, pos as int);
            assert(split_from(b, pos as int).len() >= 1);
            assert(raw.subrange(k, raw.len() as int).len() == raw.len() - k);
            assert(k < raw.len());
            assert(raw[k] == bytes@) by {
                assert(raw.subrange(k, raw.len() as int)[0] == raw[k]);
            }
            assert(raw.subrange(k + 1, raw.len() as int) =~= split_from(b, end as int)) by {
                assert(raw.subrange(k + 1, raw.len() as int) =~= raw.subrange(
                    k,
                    raw.len() as int,
                ).subrange(1, raw.len() - k));
            }
        }
        match decode_line(bytes) {
            Some(text) => {
                scanner.feed(text);
                pos = end;
                proof {
                    assert(scanner.lines_read() =~= decoded(raw).take(k + 1));
                }
            },
            None => {
                let e = scanner.fail();
                proof {
                    if let Some((s, _)) = resolved(start, stop, direction) {
                        lemma_retained_prefix(decoded(raw), s, k, k);
                    }
                }
                return Err(e);
            },
        }
    }
}

} // verus!

verus! {

/// A head window `FromBegin(a)..FromBegin(b)` read top to bottom, with
/// `a < b` within the stream, holds exactly lines `a + 1 ..= b`, each under
/// its own ordinal and with its own content.
pub proof fn lemma_head_range(lines: Seq<Seq<char>>, a: usize, b: usize)
    requires
        lines.len() > 0,
        a < b <= lines.len(),
    ensures
        window(lines, Position::FromBegin(a), Position::FromBegin(b), ReadingDirection::TopToBottom)
            == Seq::new((b - a) as nat, |j: int| (a + 1 + j, lines[a + j])),
{
    assert(window(
        lines,
        Position::FromBegin(a),
        Position::FromBegin(b),
        ReadingDirection::TopToBottom,
    ) =~= Seq::new((b - a) as nat, |j: int| (a + 1 + j, lines[a + j])));
}

/// The window from the very first line to the very end, read top to bottom,
/// is the whole stream in order, numbered from 1.
pub proof fn lemma_whole_stream(lines: Seq<Seq<char>>)
    ensures
        window(lines, Position::FromBegin(0), Position::FromEnd(0), ReadingDirection::TopToBottom)
            == Seq::new(lines.len(), |j: int| (j + 1, lines[j])),
{
    assert(window(
        lines,
        Position::FromBegin(0),
        Position::FromEnd(0),
        ReadingDirection::TopToBottom,
    ) =~= Seq::new(lines.len(), |j: int| (j + 1, lines[j])));
}

/// Reading bottom to top with the bounds exchanged selects the same lines as
/// reading top to bottom, emitted in reverse.
pub proof fn lemma_direction_reverses(
    lines: Seq<Seq<char>>,
    start: Position,
    stop: Position,
)
    ensures
        window(lines, stop, start, ReadingDirection::BottomToTop) == window(
            lines,
            start,
            stop,
            ReadingDirection::TopToBottom,
        ).reverse(),
{
    match resolved(start, stop, ReadingDirection::TopToBottom) {
        None => {
            assert(window(lines, stop, start, ReadingDirection::BottomToTop) =~= Seq::empty());
        },
        Some(_) => {
            assert(resolved(stop, start, ReadingDirection::BottomToTop) == resolved(
                start,
                stop,
                ReadingDirection::TopToBottom,
            ));
        },
    }
}

/// A window whose bounds coincide is empty whatever the stream, and its scan
/// reads no line at all.
pub proof fn lemma_zero_width(lines: Seq<Seq<char>>, p: Position, direction: ReadingDirection)
    ensures
        window(lines, p, p, direction) == Seq::<(int, Seq<char>)>::empty(),
        !scan_continues(p, p, direction, 0),
{
}

/// Scanning the same bytes for the same window twice gives the same outcome.
pub proof fn lemma_scan_repeatable(
    data: Seq<u8>,
    start: Position,
    stop: Position,
    direction: ReadingDirection,
    r1: Result<Vec<Line>, ScanError>,
    r2: Result<Vec<Line>, ScanError>,
)
    requires
        scan_outcome(data, start, stop, direction, r1),
        scan_outcome(data, start, stop, direction, r2),
    ensures
        r1 is Ok <==> r2 is Ok,
        r1 matches Ok(v1) ==> r2 matches Ok(v2) && lines_view(v1@) == lines_view(v2@),
        r1 matches Err(e1) ==> r2 matches Err(e2) && e1.error_line == e2.error_line
            && lines_view(e1.valid_reads@) == lines_view(e2.valid_reads@),
{
    let raw = stream_lines(data);
    match (r1, r2) {
        (Ok(_), Err(e)) => {
            assert(!valid_utf8(raw[e.error_line - 1]));
        },
        (Err(e), Ok(_)) => {
            assert(!valid_utf8(raw[e.error_line - 1]));
        },
        (Err(e1), Err(e2)) => {
            if e1.error_line < e2.error_line {
                assert(valid_utf8(raw[e1.error_line - 1]));
            } else if e2.error_line < e1.error_line {
                assert(valid_utf8(raw[e2.error_line - 1]));
            }
        },
        _ => {},
    }
}

} // verus!
