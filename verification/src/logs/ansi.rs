//! A bounded, line-oriented batcher for streamed terminal output.
//!
//! Bytes arrive in arbitrary chunks. A `\n` finishes the current line, a `\r`
//! that is not followed by `\n` makes the next text overwrite the current
//! line (progress bars). Finished lines are rendered as inert HTML and kept
//! up to `max_lines`; when lines are dropped, the first kept line is a trim
//! marker. The rendered text is also held under `max_bytes` where possible.
use std::collections::VecDeque;

use vstd::prelude::*;
use vstd::string::*;
use vstd::utf8::encode_utf8;

pub use super::render::sanitize_chunk;
use super::render::sanitize_html;

verus! {

broadcast use vstd::std_specs::vecdeque::group_vec_dequeue_axioms;

/// The line shown in place of output that was dropped.
pub const TRIM_MARKER: &'static str = "… earlier output trimmed";

/// The text of [`TRIM_MARKER`].
pub open spec fn trim_marker() -> Seq<char> {
    TRIM_MARKER@
}

/// One rendered line of output.
#[derive(Clone, Debug, PartialEq, Eq)]
pub struct LogLine {
    pub html: String,
}

impl DeepView for LogLine {
    type V = Seq<char>;

    open spec fn deep_view(&self) -> Seq<char> {
        self.html@
    }
}

/// The lines that a call added.
#[derive(Clone, Debug, PartialEq, Eq)]
pub struct LogBatch {
    pub lines: Vec<LogLine>,
}

/// The abstract state of a [`LogBatcher`].
pub struct BatcherView {
    pub max_lines: nat,
    pub max_bytes: nat,
    /// Finished lines, as HTML, oldest first.
    pub lines: Seq<Seq<char>>,
    /// Raw bytes of the unfinished line.
    pub current: Seq<u8>,
    /// Whether any line has been dropped.
    pub trimmed: bool,
    /// Whether the last byte seen was a `\r`.
    pub pending_cr: bool,
}

/// The byte length of a rendered line, as `str::len` reports it.
pub open spec fn line_bytes(html: Seq<char>) -> nat {
    (encode_utf8(html).len() as usize) as nat
}

/// Total byte length of rendered lines.
pub open spec fn lines_bytes(lines: Seq<Seq<char>>) -> nat
    decreases lines.len(),
{
    if lines.len() == 0 {
        0
    } else {
        lines_bytes(lines.drop_last()) + line_bytes(lines.last())
    }
}

/// Puts the trim marker first (unless it already is, or no line may be kept),
/// dropping the oldest line when that is needed to stay within `max_lines`.
pub open spec fn ensure_marker(m: BatcherView) -> BatcherView {
    if m.max_lines == 0 || (m.lines.len() > 0 && m.lines[0] == trim_marker()) {
        m
    } else {
        let kept = if m.lines.len() >= m.max_lines { m.lines.drop_first() } else { m.lines };
        BatcherView { lines: seq![trim_marker()] + kept, ..m }
    }
}

/// Appends a finished line, dropping the oldest lines so that at most
/// `max_lines` remain.
pub open spec fn push_line(m: BatcherView, line: Seq<char>) -> BatcherView {
    let excess = m.lines.len() >= m.max_lines;
    let kept = if excess { m.lines.skip(m.lines.len() - m.max_lines + 1) } else { m.lines };
    let pushed = BatcherView { lines: kept.push(line), trimmed: m.trimmed || excess, ..m };
    if pushed.trimmed { ensure_marker(pushed) } else { pushed }
}

/// Renders the unfinished line and appends it.
pub open spec fn finish_current(m: BatcherView) -> BatcherView {
    push_line(BatcherView { current: Seq::empty(), ..m }, sanitize_html(m.current))
}

/// A byte seen with no `\r` pending.
pub open spec fn take_byte(m: BatcherView, b: u8) -> BatcherView {
    if b == 10 {
        finish_current(m)
    } else if b == 13 {
        BatcherView { pending_cr: true, ..m }
    } else {
        BatcherView { current: m.current.push(b), ..m }
    }
}

/// One input byte: after a `\r`, a `\n` finishes the line and anything else
/// first discards the unfinished line.
pub open spec fn feed_byte(m: BatcherView, b: u8) -> BatcherView {
    if m.pending_cr {
        let cleared = BatcherView { pending_cr: false, ..m };
        if b == 10 {
            finish_current(cleared)
        } else {
            take_byte(BatcherView { current: Seq::empty(), ..cleared }, b)
        }
    } else {
        take_byte(m, b)
    }
}

/// Feeds a chunk of bytes, in order.
pub open spec fn feed_all(m: BatcherView, bytes: Seq<u8>) -> BatcherView
    decreases bytes.len(),
{
    if bytes.len() == 0 {
        m
    } else {
        feed_byte(feed_all(m, bytes.drop_last()), bytes.last())
    }
}

/// Drops the oldest lines while the rendered text and the unfinished bytes
/// exceed `max_bytes` and more than one line is left.
pub open spec fn fit_lines(lines: Seq<Seq<char>>, current: nat, max_bytes: nat) -> Seq<Seq<char>>
    decreases lines.len(),
{
    if lines_bytes(lines) + current > max_bytes && lines.len() > 1 {
        fit_lines(lines.drop_first(), current, max_bytes)
    } else {
        lines
    }
}

/// Applies the byte limit.
pub open spec fn enforce_byte_limit(m: BatcherView) -> BatcherView {
    let kept = fit_lines(m.lines, m.current.len(), m.max_bytes);
    let fitted = BatcherView { lines: kept, trimmed: m.trimmed || kept.len() < m.lines.len(), ..m };
    if fitted.trimmed { ensure_marker(fitted) } else { fitted }
}

/// How many lines a chunk finishes: one per `\n` (with or without a
/// `\r` before it).
pub open spec fn newlines(bytes: Seq<u8>) -> nat
    decreases bytes.len(),
{
    if bytes.len() == 0 {
        0
    } else {
        newlines(bytes.drop_last()) + if bytes.last() == 10u8 {
            1nat
        } else {
            0nat
        }
    }
}

/// How many kept lines are real output, not the trim marker.
pub open spec fn output_lines(m: BatcherView) -> nat {
    if m.trimmed && m.lines.len() > 0 {
        (m.lines.len() - 1) as nat
    } else {
        m.lines.len()
    }
}

/// The lines a call that fed `bytes` into `m` hands out: those it finished
/// that are still kept, in order (the last kept lines, the trim marker
/// never among them).
pub open spec fn batch_lines(m: BatcherView, bytes: Seq<u8>) -> Seq<Seq<char>> {
    let after = push_bytes_effect(m, bytes);
    let k = if newlines(bytes) <= output_lines(after) {
        newlines(bytes)
    } else {
        output_lines(after)
    };
    after.lines.skip(after.lines.len() - k)
}

/// The effect of `push_bytes`.
pub open spec fn push_bytes_effect(m: BatcherView, bytes: Seq<u8>) -> BatcherView {
    enforce_byte_limit(feed_all(m, bytes))
}

/// What `snapshot` shows: the kept lines and the unfinished line, if any.
pub open spec fn snapshot_lines(m: BatcherView) -> Seq<Seq<char>> {
    if m.current.len() > 0 {
        m.lines.push(sanitize_html(m.current))
    } else {
        m.lines
    }
}

/// The invariant of a batcher: at most `max_lines` lines are kept, and once
/// output was dropped the trim marker comes first.
pub open spec fn batcher_inv(m: BatcherView) -> bool {
    &&& m.lines.len() <= m.max_lines
    &&& (m.trimmed && m.max_lines > 0) ==> (m.lines.len() > 0 && m.lines[0] == trim_marker())
}

/// Whether `push_bytes` can run on `bytes`: finishing a line needs room for
/// at least one line (with `max_lines == 0` a newline could never be kept, and pushing would not end).
pub open spec fn can_push(m: BatcherView, bytes: Seq<u8>) -> bool {
    m.max_lines > 0 || !bytes.contains(10u8)
}

/// A bounded buffer of rendered log lines.
pub struct LogBatcher {
    max_lines: usize,
    max_bytes: usize,
    lines: VecDeque<LogLine>,
    current: Vec<u8>,
    trimmed: bool,
    pending_cr: bool,
}

impl View for LogBatcher {
    type V = BatcherView;

    closed spec fn view(&self) -> BatcherView {
        BatcherView {
            max_lines: self.max_lines as nat,
            max_bytes: self.max_bytes as nat,
            lines: self.lines.deep_view(),
            current: self.current@,
            trimmed: self.trimmed,
            pending_cr: self.pending_cr,
        }
    }
}

proof fn lemma_ensure_marker_inv(m: BatcherView)
    requires
        m.lines.len() <= m.max_lines,
    ensures
        batcher_inv(BatcherView { trimmed: true, ..ensure_marker(m) }),
        ensure_marker(m).trimmed == m.trimmed,
        ensure_marker(m).max_lines == m.max_lines,
        ensure_marker(m).max_bytes == m.max_bytes,
        ensure_marker(m).current == m.current,
        ensure_marker(m).pending_cr == m.pending_cr,
{
}

proof fn lemma_push_line_inv(m: BatcherView, line: Seq<char>)
    requires
        batcher_inv(m),
        m.max_lines > 0,
    ensures
        batcher_inv(push_line(m, line)),
        push_line(m, line).current == m.current,
        push_line(m, line).pending_cr == m.pending_cr,
        push_line(m, line).max_lines == m.max_lines,
        push_line(m, line).max_bytes == m.max_bytes,
{
    let excess = m.lines.len() >= m.max_lines;
    let kept = if excess { m.lines.skip(m.lines.len() - m.max_lines + 1) } else { m.lines };
    let pushed = BatcherView { lines: kept.push(line), trimmed: m.trimmed || excess, ..m };
    if pushed.trimmed {
        lemma_ensure_marker_inv(pushed);
    } else {
        assert(!m.trimmed);
    }
}

proof fn lemma_feed_all_inv(m: BatcherView, bytes: Seq<u8>)
    requires
        batcher_inv(m),
        can_push(m, bytes),
    ensures
        batcher_inv(feed_all(m, bytes)),
        feed_all(m, bytes).max_lines == m.max_lines,
        feed_all(m, bytes).max_bytes == m.max_bytes,
    decreases bytes.len(),
{
    if bytes.len() > 0 {
        let prefix = bytes.drop_last();
        assert(can_push(m, prefix)) by {
            if m.max_lines == 0 {
                if prefix.contains(10u8) {
                    let k = choose|k: int| 0 <= k < prefix.len() && prefix[k] == 10u8;
                    assert(bytes[k] == 10u8);
                }
            }
        }
        lemma_feed_all_inv(m, prefix);
        let before = feed_all(m, prefix);
        let b = bytes.last();
        if b == 10u8 {
            assert(bytes[bytes.len() - 1] == 10u8);
        }
        if before.pending_cr {
            let cleared = BatcherView { pending_cr: false, ..before };
            if b == 10 {
                lemma_push_line_inv(BatcherView { current: Seq::empty(), ..cleared }, sanitize_html(cleared.current));
            }
        } else if b == 10 {
            lemma_push_line_inv(BatcherView { current: Seq::empty(), ..before }, sanitize_html(before.current));
        }
    }
}

proof fn lemma_fit_lines_suffix(lines: Seq<Seq<char>>, current: nat, max_bytes: nat)
    ensures
        fit_lines(lines, current, max_bytes).len() <= lines.len(),
        lines.len() > 0 ==> fit_lines(lines, current, max_bytes).len() > 0,
    decreases lines.len(),
{
    if lines_bytes(lines) + current > max_bytes && lines.len() > 1 {
        lemma_fit_lines_suffix(lines.drop_first(), current, max_bytes);
    }
}

/// Law: whatever bytes arrive, a batcher keeps at most `max_lines` lines and,
/// once output was dropped, shows the trim marker first.
pub proof fn law_push_bytes_keeps_bound(m: BatcherView, bytes: Seq<u8>)
    requires
        batcher_inv(m),
        can_push(m, bytes),
    ensures
        batcher_inv(push_bytes_effect(m, bytes)),
{
    lemma_feed_all_inv(m, bytes);
    let fed = feed_all(m, bytes);
    lemma_fit_lines_suffix(fed.lines, fed.current.len(), fed.max_bytes);
    let kept = fit_lines(fed.lines, fed.current.len(), fed.max_bytes);
    let fitted = BatcherView { lines: kept, trimmed: fed.trimmed || kept.len() < fed.lines.len(), ..fed };
    if fitted.trimmed {
        lemma_ensure_marker_inv(fitted);
    }
}

/// The output lines a batcher keeps: its lines without the leading trim
/// marker.
pub open spec fn output_part(m: BatcherView) -> Seq<Seq<char>> {
    if m.trimmed && m.lines.len() > 0 {
        m.lines.drop_first()
    } else {
        m.lines
    }
}

/// `tail` is the last `tail.len()` items of `all`, in order.
pub open spec fn ends_with(all: Seq<Seq<char>>, tail: Seq<Seq<char>>) -> bool {
    tail.len() <= all.len() && tail == all.skip(all.len() - tail.len())
}

/// The lines that feeding `bytes` into `m` finishes, rendered, in order.
pub open spec fn finished_lines(m: BatcherView, bytes: Seq<u8>) -> Seq<Seq<char>>
    decreases bytes.len(),
{
    if bytes.len() == 0 {
        Seq::empty()
    } else {
        let rest = finished_lines(m, bytes.drop_last());
        if bytes.last() == 10u8 {
            rest.push(sanitize_html(feed_all(m, bytes.drop_last()).current))
        } else {
            rest
        }
    }
}

proof fn lemma_ends_with_self(a: Seq<Seq<char>>)
    ensures
        ends_with(a, a),
{
    assert(a.skip(0) =~= a);
}

proof fn lemma_ends_with_trans(x: Seq<Seq<char>>, y: Seq<Seq<char>>, z: Seq<Seq<char>>)
    requires
        ends_with(z, y),
        ends_with(y, x),
    ensures
        ends_with(z, x),
{
    assert(x =~= z.skip(z.len() - x.len()));
}

proof fn lemma_ends_with_within(x: Seq<Seq<char>>, y: Seq<Seq<char>>, z: Seq<Seq<char>>)
    requires
        ends_with(z, x),
        ends_with(z, y),
        x.len() <= y.len(),
    ensures
        ends_with(y, x),
{
    assert(x =~= y.skip(y.len() - x.len()));
}

proof fn lemma_ends_with_append(x: Seq<Seq<char>>, y: Seq<Seq<char>>, f: Seq<Seq<char>>)
    requires
        ends_with(y, x),
    ensures
        ends_with(y + f, x + f),
{
    assert(x + f =~= (y + f).skip((y + f).len() - (x + f).len()));
}

proof fn lemma_ends_with_drop_first(a: Seq<Seq<char>>)
    requires
        a.len() > 0,
    ensures
        ends_with(a, a.drop_first()),
{
    assert(a.drop_first() =~= a.skip(1));
}

proof fn lemma_lines_bytes_concat(a: Seq<Seq<char>>, b: Seq<Seq<char>>)
    ensures
        lines_bytes(a + b) == lines_bytes(a) + lines_bytes(b),
    decreases b.len(),
{
    if b.len() == 0 {
        assert(a + b =~= a);
    } else {
        lemma_lines_bytes_concat(a, b.drop_last());
        assert((a + b).drop_last() =~= a + b.drop_last());
        assert((a + b).last() == b.last());
    }
}

proof fn lemma_lines_bytes_tail(all: Seq<Seq<char>>, tail: Seq<Seq<char>>)
    requires
        ends_with(all, tail),
    ensures
        lines_bytes(tail) <= lines_bytes(all),
{
    let head = all.take(all.len() - tail.len());
    assert(all =~= head + tail);
    lemma_lines_bytes_concat(head, tail);
}

proof fn lemma_ensure_marker_tail(p: BatcherView)
    requires
        p.trimmed,
    ensures
        ends_with(p.lines, output_part(ensure_marker(p))),
        ensure_marker(p).trimmed,
{
    let e = ensure_marker(p);
    if p.max_lines == 0 || (p.lines.len() > 0 && p.lines[0] == trim_marker()) {
        if p.lines.len() > 0 {
            lemma_ends_with_drop_first(p.lines);
        } else {
            lemma_ends_with_self(p.lines);
        }
    } else {
        let kept = if p.lines.len() >= p.max_lines { p.lines.drop_first() } else { p.lines };
        assert(output_part(e) =~= kept);
        if p.lines.len() >= p.max_lines {
            lemma_ends_with_drop_first(p.lines);
        } else {
            lemma_ends_with_self(p.lines);
        }
    }
}

proof fn lemma_push_line_tail(m: BatcherView, line: Seq<char>)
    requires
        batcher_inv(m),
        m.max_lines > 0,
    ensures
        ends_with(output_part(m).push(line), output_part(push_line(m, line))),
        !push_line(m, line).trimmed ==> output_part(push_line(m, line)) == output_part(m).push(line),
        m.trimmed ==> push_line(m, line).trimmed,
{
    let excess = m.lines.len() >= m.max_lines;
    let kept = if excess { m.lines.skip(m.lines.len() - m.max_lines + 1) } else { m.lines };
    let pushed = BatcherView { lines: kept.push(line), trimmed: m.trimmed || excess, ..m };
    let out = output_part(m);
    if !excess {
        if m.trimmed {
            assert(pushed.lines[0] == m.lines[0]);
            assert(ensure_marker(pushed) == pushed);
        }
        assert(output_part(push_line(m, line)) =~= out.push(line));
        lemma_ends_with_self(out.push(line));
    } else {
        assert(ends_with(out, kept)) by {
            assert(kept =~= out.skip(out.len() - kept.len()));
        }
        lemma_ends_with_append(kept, out, seq![line]);
        assert(out + seq![line] =~= out.push(line));
        assert(kept + seq![line] =~= pushed.lines);
        lemma_ensure_marker_tail(pushed);
        lemma_ends_with_trans(output_part(ensure_marker(pushed)), pushed.lines, out.push(line));
    }
}

proof fn lemma_finished_count(m: BatcherView, bytes: Seq<u8>)
    ensures
        finished_lines(m, bytes).len() == newlines(bytes),
    decreases bytes.len(),
{
    if bytes.len() > 0 {
        lemma_finished_count(m, bytes.drop_last());
    }
}

proof fn lemma_feed_all_tail(m: BatcherView, bytes: Seq<u8>)
    requires
        batcher_inv(m),
        can_push(m, bytes),
    ensures
        ends_with(output_part(m) + finished_lines(m, bytes), output_part(feed_all(m, bytes))),
        !feed_all(m, bytes).trimmed ==> output_part(feed_all(m, bytes)) == output_part(m) + finished_lines(m, bytes),
        m.trimmed ==> feed_all(m, bytes).trimmed,
    decreases bytes.len(),
{
    if bytes.len() == 0 {
        assert(output_part(m) + finished_lines(m, bytes) =~= output_part(m));
        lemma_ends_with_self(output_part(m));
    } else {
        let prefix = bytes.drop_last();
        assert(can_push(m, prefix)) by {
            if m.max_lines == 0 {
                if prefix.contains(10u8) {
                    let k = choose|k: int| 0 <= k < prefix.len() && prefix[k] == 10u8;
                    assert(bytes[k] == 10u8);
                }
            }
        }
        lemma_feed_all_tail(m, prefix);
        lemma_feed_all_inv(m, prefix);
        let prev = feed_all(m, prefix);
        let x = output_part(m) + finished_lines(m, prefix);
        let b = bytes.last();
        if b == 10u8 {
            assert(bytes[bytes.len() - 1] == 10u8);
            assert(m.max_lines > 0);
            let line = sanitize_html(prev.current);
            let p = if prev.pending_cr {
                BatcherView { current: Seq::empty(), ..BatcherView { pending_cr: false, ..prev } }
            } else {
                BatcherView { current: Seq::empty(), ..prev }
            };
            assert(feed_all(m, bytes) == push_line(p, line));
            assert(output_part(p) == output_part(prev));
            lemma_push_line_tail(p, line);
            lemma_ends_with_append(output_part(prev), x, seq![line]);
            assert(x + seq![line] =~= output_part(m) + finished_lines(m, bytes));
            assert(output_part(prev) + seq![line] =~= output_part(p).push(line));
            lemma_ends_with_trans(output_part(feed_all(m, bytes)), output_part(p).push(line), x + seq![line]);
        } else {
            assert(feed_all(m, bytes).lines == prev.lines);
            assert(feed_all(m, bytes).trimmed == prev.trimmed);
            assert(finished_lines(m, bytes) == finished_lines(m, prefix));
        }
    }
}

proof fn lemma_fit_lines_tail(lines: Seq<Seq<char>>, current: nat, max_bytes: nat)
    ensures
        ends_with(lines, fit_lines(lines, current, max_bytes)),
        lines_bytes(fit_lines(lines, current, max_bytes)) + current <= max_bytes || fit_lines(lines, current, max_bytes).len() <= 1,
    decreases lines.len(),
{
    if lines_bytes(lines) + current > max_bytes && lines.len() > 1 {
        lemma_fit_lines_tail(lines.drop_first(), current, max_bytes);
        lemma_ends_with_drop_first(lines);
        lemma_ends_with_trans(fit_lines(lines, current, max_bytes), lines.drop_first(), lines);
    } else {
        lemma_ends_with_self(lines);
    }
}

proof fn lemma_enforce_tail(fed: BatcherView)
    requires
        batcher_inv(fed),
    ensures
        ends_with(output_part(fed), output_part(enforce_byte_limit(fed))),
        !enforce_byte_limit(fed).trimmed ==> output_part(enforce_byte_limit(fed)) == output_part(fed),
        fed.trimmed ==> enforce_byte_limit(fed).trimmed,
        lines_bytes(output_part(enforce_byte_limit(fed))) + enforce_byte_limit(fed).current.len()
            <= enforce_byte_limit(fed).max_bytes || output_part(enforce_byte_limit(fed)).len() <= 1,
{
    let kept = fit_lines(fed.lines, fed.current.len(), fed.max_bytes);
    lemma_fit_lines_tail(fed.lines, fed.current.len(), fed.max_bytes);
    let fitted = BatcherView { lines: kept, trimmed: fed.trimmed || kept.len() < fed.lines.len(), ..fed };
    let a = enforce_byte_limit(fed);
    if !fitted.trimmed {
        assert(kept =~= fed.lines);
        lemma_ends_with_self(output_part(fed));
        lemma_ends_with_self(kept);
    } else {
        lemma_ensure_marker_tail(fitted);
        if fed.trimmed && kept.len() == fed.lines.len() {
            assert(kept =~= fed.lines);
            if fed.max_lines > 0 {
                assert(ensure_marker(fitted) == fitted);
            }
            assert(output_part(a) == output_part(fed));
            lemma_ends_with_self(output_part(fed));
        } else if fed.trimmed {
            if fed.lines.len() > 0 {
                lemma_ends_with_drop_first(fed.lines);
                lemma_ends_with_within(kept, output_part(fed), fed.lines);
            }
            lemma_ends_with_trans(output_part(a), kept, output_part(fed));
        } else {
            lemma_ends_with_trans(output_part(a), kept, fed.lines);
        }
        lemma_lines_bytes_tail(kept, output_part(a));
    }
}

/// Law: across calls, the output lines a batcher keeps (its lines without
/// the leading trim marker) are the latest lines finished so far, in order
/// and with none missing between them: all of them while no line was
/// dropped, and once one was the batcher stays marked as trimmed (so the
/// marker stands first). Their rendered text and the unfinished line fit
/// in `max_bytes` unless a single output line is kept. The batch a call
/// hands out is the last of the lines it finished: all of them that are
/// still kept. `finished` is every line finished before the call; a new
/// batcher keeps none and has finished none.
pub proof fn law_kept_lines_are_the_latest(m: BatcherView, bytes: Seq<u8>, finished: Seq<Seq<char>>)
    requires
        batcher_inv(m),
        can_push(m, bytes),
        ends_with(finished, output_part(m)),
        !m.trimmed ==> output_part(m) == finished,
    ensures
        ({
            let a = push_bytes_effect(m, bytes);
            let all = finished + finished_lines(m, bytes);
            &&& batcher_inv(a)
            &&& ends_with(all, output_part(a))
            &&& !a.trimmed ==> output_part(a) == all
            &&& m.trimmed ==> a.trimmed
            &&& lines_bytes(output_part(a)) + a.current.len() <= a.max_bytes || output_part(a).len() <= 1
            &&& ends_with(finished_lines(m, bytes), batch_lines(m, bytes))
            &&& batch_lines(m, bytes).len() == if finished_lines(m, bytes).len() <= output_part(a).len() {
                finished_lines(m, bytes).len()
            } else {
                output_part(a).len()
            }
        }),
{
    let fed = feed_all(m, bytes);
    let a = push_bytes_effect(m, bytes);
    let fin = finished_lines(m, bytes);
    let all = finished + fin;
    law_push_bytes_keeps_bound(m, bytes);
    lemma_feed_all_inv(m, bytes);
    lemma_feed_all_tail(m, bytes);
    lemma_enforce_tail(fed);
    lemma_ends_with_append(output_part(m), finished, fin);
    lemma_ends_with_trans(output_part(fed), output_part(m) + fin, all);
    lemma_ends_with_trans(output_part(a), output_part(fed), all);
    lemma_finished_count(m, bytes);
    let k = if newlines(bytes) <= output_lines(a) { newlines(bytes) } else { output_lines(a) };
    assert(output_lines(a) == output_part(a).len());
    let batch = batch_lines(m, bytes);
    assert(batch =~= output_part(a).skip(output_part(a).len() - k));
    assert(ends_with(output_part(a), batch));
    lemma_ends_with_trans(batch, output_part(a), all);
    assert(ends_with(all, fin)) by {
        assert(fin =~= all.skip(all.len() - fin.len()));
    }
    lemma_ends_with_within(batch, fin, all);
}

fn line_byte_len(line: &LogLine) -> (n: usize)
    ensures
        n == line_bytes(line.html@),
{
    line.html.as_str().len()
}

impl LogBatcher {
    /// The batcher invariant (see [`batcher_inv`]).
    pub open spec fn inv(&self) -> bool {
        batcher_inv(self@)
    }

    /// An empty batcher that keeps at most `max_lines` lines and about
    /// `max_bytes` bytes of rendered text.
    pub fn new(max_lines: usize, max_bytes: usize) -> (b: Self)
        ensures
            b@ == (BatcherView {
                max_lines: max_lines as nat,
                max_bytes: max_bytes as nat,
                lines: Seq::empty(),
                current: Seq::empty(),
                trimmed: false,
                pending_cr: false,
            }),
            b.inv(),
    {
        let b = LogBatcher {
            max_lines,
            max_bytes,
            lines: VecDeque::with_capacity(max_lines),
            current: Vec::new(),
            trimmed: false,
            pending_cr: false,
        };
        assert(b.lines.deep_view() =~= Seq::<Seq<char>>::empty());
        b
    }

    /// Feeds a chunk of output and returns the lines it finished that are
    /// still kept, in order (the trim marker is never among them), for the
    /// live log stream.
    pub fn push_bytes(&mut self, bytes: &[u8]) -> (batch: LogBatch)
        requires
            can_push(old(self)@, bytes@),
        ensures
            final(self)@ == push_bytes_effect(old(self)@, bytes@),
            batch.lines.deep_view() == batch_lines(old(self)@, bytes@),
            old(self).inv() ==> final(self).inv(),
    {
        let ghost start = self@;
        let mut finished: usize = 0;
        let mut i: usize = 0;
        while i < bytes.len()
            invariant
                i <= bytes.len(),
                can_push(start, bytes@),
                self@ == feed_all(start, bytes@.take(i as int)),
                self@.max_lines == start.max_lines,
                finished == newlines(bytes@.take(i as int)),
                finished <= i,
            decreases bytes.len() - i,
        {
            let byte = bytes[i];
            proof {
                assert(bytes@.take(i + 1).drop_last() =~= bytes@.take(i as int));
                assert(bytes@.take(i + 1).last() == byte);
                if byte == 10u8 {
                    assert(bytes@[i as int] == 10u8);
                }
            }
            if byte == 10u8 {
                finished = finished + 1;
            }
            if self.pending_cr {
                self.pending_cr = false;
                if byte == 10u8 {
                    self.finish_current();
                    i = i + 1;
                    continue;
                }
                self.current.clear();
            }
            if byte == 10u8 {
                self.finish_current();
            } else if byte == 13u8 {
                self.pending_cr = true;
            } else {
                self.current.push(byte);
            }
            i = i + 1;
        }
        assert(bytes@.take(bytes.len() as int) =~= bytes@);
        self.enforce_byte_limit();
        proof {
            if batcher_inv(start) {
                law_push_bytes_keeps_bound(start, bytes@);
            }
        }
        let new_len = self.lines.len();
        let available = if self.trimmed && new_len > 0 { new_len - 1 } else { new_len };
        let fresh = if finished <= available { finished } else { available };
        let skip = new_len - fresh;
        let mut lines: Vec<LogLine> = Vec::new();
        let mut j: usize = skip;
        while j < new_len
            invariant
                skip <= j <= new_len,
                new_len == self.lines@.len(),
                lines.deep_view() =~= self@.lines.subrange(skip as int, j as int),
            decreases new_len - j,
        {
            let line = LogLine { html: self.lines[j].html.clone() };
            let ghost prev = lines.deep_view();
            lines.push(line);
            proof {
                assert(self@.lines[j as int] == self.lines@[j as int].html@);
                assert(lines.deep_view() =~= prev.push(line.html@));
                assert(self@.lines.subrange(skip as int, j + 1) =~= self@.lines.subrange(skip as int, j as int).push(self@.lines[j as int]));
            }
            j = j + 1;
        }
        proof {
            assert(self@.lines.skip(skip as int) =~= self@.lines.subrange(skip as int, new_len as int));
        }
        LogBatch { lines }
    }

    /// The kept lines, followed by the unfinished line (rendered) if there
    /// is one.
    pub fn snapshot(&self) -> (lines: Vec<LogLine>)
        ensures
            lines.deep_view() == snapshot_lines(self@),
    {
        let mut lines: Vec<LogLine> = Vec::new();
        let n = self.lines.len();
        let mut j: usize = 0;
        while j < n
            invariant
                j <= n,
                n == self.lines@.len(),
                lines.deep_view() =~= self@.lines.take(j as int),
            decreases n - j,
        {
            let line = LogLine { html: self.lines[j].html.clone() };
            let ghost prev = lines.deep_view();
            lines.push(line);
            proof {
                assert(self@.lines[j as int] == self.lines@[j as int].html@);
                assert(lines.deep_view() =~= prev.push(line.html@));
                assert(self@.lines.take(j + 1) =~= self@.lines.take(j as int).push(self@.lines[j as int]));
            }
            j = j + 1;
        }
        let ghost kept = lines.deep_view();
        if self.current.len() > 0 {
            let line = LogLine { html: sanitize_chunk(self.current.as_slice()) };
            lines.push(line);
            assert(lines.deep_view() =~= kept.push(line.html@));
        }
        assert(self@.lines.take(n as int) =~= self@.lines);
        assert(lines.deep_view() =~= snapshot_lines(self@));
        lines
    }

    fn finish_current(&mut self)
        requires
            old(self)@.max_lines > 0,
        ensures
            final(self)@ == finish_current(old(self)@),
    {
        let html = sanitize_chunk(self.current.as_slice());
        self.current.clear();
        self.push_line(LogLine { html });
    }

    fn push_line(&mut self, line: LogLine)
        requires
            old(self)@.max_lines > 0,
        ensures
            final(self)@ == push_line(old(self)@, line.html@),
    {
        let ghost start = self@;
        let ghost excess = start.lines.len() >= start.max_lines;
        while self.lines.len() >= self.max_lines
            invariant
                self.max_lines > 0,
                self@.max_lines == start.max_lines,
                self@.max_bytes == start.max_bytes,
                self@.current == start.current,
                self@.pending_cr == start.pending_cr,
                self@.trimmed == (start.trimmed || (excess && self@.lines.len() < start.lines.len())),
                excess ==> self@.lines.len() >= start.max_lines - 1,
                !excess ==> self@.lines == start.lines,
                self@.lines == start.lines.skip(start.lines.len() - self@.lines.len()),
                self@.lines.len() == self.lines@.len(),
                self@.lines.len() <= start.lines.len(),
                self@.max_lines == self.max_lines,
                start.max_lines == self.max_lines,
                excess == (start.lines.len() >= start.max_lines),
            decreases self.lines.len(),
        {
            let ghost before = self@.lines;
            assert(before.len() == self.lines@.len());
            self.lines.pop_front();
            self.trimmed = true;
            proof {
                assert(self@.lines =~= before.drop_first());
                assert(self@.lines =~= start.lines.skip(start.lines.len() - self@.lines.len()));
            }
        }
        let ghost kept = self@.lines;
        self.lines.push_back(line);
        proof {
            assert(self.lines.deep_view() =~= kept.push(line.html@));
            if excess {
                assert(kept =~= start.lines.skip(start.lines.len() - start.max_lines + 1));
            } else {
                assert(kept =~= start.lines);
            }
        }
        if self.trimmed {
            self.ensure_trim_marker();
        }
    }

    fn ensure_trim_marker(&mut self)
        ensures
            final(self)@ == ensure_marker(old(self)@),
    {
        if self.max_lines == 0 {
            return;
        }
        let marker = String::from_str(TRIM_MARKER);
        if self.lines.len() > 0 && self.lines[0].html == marker {
            assert(self@.lines[0] == self.lines@[0].html@);
            return;
        }
        proof {
            if self@.lines.len() > 0 {
                assert(self@.lines[0] == self.lines@[0].html@);
            }
        }
        if self.lines.len() >= self.max_lines {
            let ghost before = self@.lines;
            self.lines.pop_front();
            assert(self@.lines =~= before.drop_first());
        }
        let ghost kept = self@.lines;
        self.lines.push_front(LogLine { html: marker });
        assert(self.lines.deep_view() =~= seq![trim_marker()] + kept);
    }

    fn enforce_byte_limit(&mut self)
        ensures
            final(self)@ == enforce_byte_limit(old(self)@),
    {
        let ghost start = self@;
        let ghost target = fit_lines(start.lines, start.current.len(), start.max_bytes);
        loop
            invariant_except_break
                self@.max_lines == start.max_lines,
                self@.max_bytes == start.max_bytes,
                self@.current == start.current,
                self@.pending_cr == start.pending_cr,
                fit_lines(self@.lines, start.current.len(), start.max_bytes) == target,
                self@.trimmed == (start.trimmed || self@.lines.len() < start.lines.len()),
                self@.lines.len() <= start.lines.len(),
            ensures
                self@.max_lines == start.max_lines,
                self@.max_bytes == start.max_bytes,
                self@.current == start.current,
                self@.pending_cr == start.pending_cr,
                self@.lines == target,
                self@.trimmed == (start.trimmed || self@.lines.len() < start.lines.len()),
            decreases self.lines.len(),
        {
            let total = self.total_bytes();
            if !(total > self.max_bytes as u128 && self.lines.len() > 1) {
                break;
            }
            let ghost before = self@.lines;
            self.lines.pop_front();
            self.trimmed = true;
            assert(self@.lines =~= before.drop_first());
        }
        if self.trimmed {
            self.ensure_trim_marker();
        }
    }

    fn total_bytes(&self) -> (total: u128)
        ensures
            total == lines_bytes(self@.lines) + self@.current.len(),
    {
        let n = self.lines.len();
        let mut acc: u128 = 0;
        let mut j: usize = 0;
        while j < n
            invariant
                j <= n,
                n == self.lines@.len(),
                acc == lines_bytes(self@.lines.take(j as int)),
                acc <= j * (usize::MAX as int),
            decreases n - j,
        {
            let len = line_byte_len(&self.lines[j]);
            proof {
                assert(self@.lines.take(j + 1).drop_last() =~= self@.lines.take(j as int));
                assert(self@.lines.take(j + 1).last() == self.lines@[j as int].html@);
                assert(acc + len <= (j + 1) * (usize::MAX as int)) by (nonlinear_arith)
                    requires
                        acc <= j * (usize::MAX as int),
                        len <= usize::MAX,
                ;
                assert((j + 1) * (usize::MAX as int) <= (usize::MAX as int) * (usize::MAX as int)) by (nonlinear_arith)
                    requires
                        j + 1 <= usize::MAX,
                ;
                assert((usize::MAX as int) * (usize::MAX as int) + (usize::MAX as int) <= u128::MAX) by (nonlinear_arith)
                    requires
                        usize::MAX <= u64::MAX,
                ;
            }
            acc = acc + len as u128;
            j = j + 1;
        }
        assert(self@.lines.take(n as int) =~= self@.lines);
        proof {
            assert(acc <= (usize::MAX as int) * (usize::MAX as int)) by (nonlinear_arith)
                requires
                    acc <= n * (usize::MAX as int),
                    n <= usize::MAX,
            ;
            assert((usize::MAX as int) * (usize::MAX as int) + (usize::MAX as int) <= u128::MAX) by (nonlinear_arith)
                requires
                    usize::MAX <= u64::MAX,
            ;
        }
        acc + self.current.len() as u128
    }
}

/// Law: a `\r` followed by anything but `\n` discards the unfinished line
/// (a progress bar redraws it), while `\r\n` ends the line like `\n`.
pub proof fn law_carriage_return_rewrites_the_line(m: BatcherView, b: u8)
    requires
        !m.pending_cr,
    ensures
        b != 10 && b != 13 ==> feed_byte(feed_byte(m, 13), b) == (BatcherView { current: seq![b], ..m }),
        feed_byte(feed_byte(m, 13), 10) == feed_byte(m, 10),
{
    assert(Seq::<u8>::empty().push(b) =~= seq![b]);
}

} // verus!
