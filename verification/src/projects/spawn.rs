//! The output kept for a spawned task: the last lines, in a bounded buffer.
use std::collections::VecDeque;

use vstd::prelude::*;

verus! {

broadcast use vstd::std_specs::vecdeque::group_vec_dequeue_axioms;

/// How many output lines a spawned task keeps.
pub const RING_CAPACITY: usize = 200;

/// The last `capacity` lines pushed.
#[derive(Debug)]
pub struct RingBuffer {
    capacity: usize,
    lines: VecDeque<String>,
}

/// The lines after pushing `line`: when the buffer is full, the oldest line
/// goes first.
pub open spec fn ring_push(capacity: nat, lines: Seq<Seq<char>>, line: Seq<char>) -> Seq<Seq<char>> {
    if lines.len() == capacity && lines.len() > 0 {
        lines.drop_first().push(line)
    } else {
        lines.push(line)
    }
}

impl RingBuffer {
    /// The buffer's capacity.
    pub closed spec fn capacity(&self) -> nat {
        self.capacity as nat
    }

    /// The kept lines, oldest first.
    pub closed spec fn contents(&self) -> Seq<Seq<char>> {
        self.lines.deep_view()
    }

    /// An empty buffer keeping at most `capacity` lines.
    pub fn new(capacity: usize) -> (b: Self)
        ensures
            b.capacity() == capacity,
            b.contents() == Seq::<Seq<char>>::empty(),
    {
        let b = RingBuffer { capacity, lines: VecDeque::with_capacity(capacity) };
        assert(b.lines.deep_view() =~= Seq::<Seq<char>>::empty());
        b
    }

    /// Appends a line, dropping the oldest when the buffer is full.
    pub fn push(&mut self, line: String)
        ensures
            final(self).capacity() == old(self).capacity(),
            final(self).contents() == ring_push(old(self).capacity(), old(self).contents(), line@),
    {
        let ghost before = self.lines.deep_view();
        if self.lines.len() == self.capacity {
            self.lines.pop_front();
        }
        let ghost popped = self.lines.deep_view();
        proof {
            if before.len() == self.capacity && before.len() > 0 {
                assert(popped =~= before.drop_first());
            } else {
                assert(popped =~= before);
            }
        }
        self.lines.push_back(line);
        assert(self.lines.deep_view() =~= popped.push(line@));
    }

    /// The kept lines, oldest first.
    pub fn lines(&self) -> (lines: Vec<String>)
        ensures
            lines.deep_view() == self.contents(),
    {
        let mut out: Vec<String> = Vec::new();
        let n = self.lines.len();
        let mut i: usize = 0;
        while i < n
            invariant
                i <= n,
                n == self.lines@.len(),
                out.deep_view() =~= self.lines.deep_view().take(i as int),
            decreases n - i,
        {
            let ghost prev = out.deep_view();
            out.push(self.lines[i].clone());
            proof {
                assert(out.deep_view() =~= prev.push(self.lines@[i as int]@));
                assert(self.lines.deep_view().take(i + 1) =~= self.lines.deep_view().take(i as int).push(
                    self.lines@[i as int]@,
                ));
            }
            i = i + 1;
        }
        assert(self.lines.deep_view().take(n as int) =~= self.lines.deep_view());
        out
    }

    /// Whether no line was kept.
    pub fn is_empty(&self) -> (empty: bool)
        ensures
            empty == (self.contents().len() == 0),
    {
        self.lines.len() == 0
    }
}

/// Law: a buffer with room for at least one line never holds more than its
/// capacity, and keeps the most recent lines in order.
pub proof fn law_ring_keeps_last_lines(capacity: nat, lines: Seq<Seq<char>>, line: Seq<char>)
    requires
        capacity > 0,
        lines.len() <= capacity,
    ensures
        ring_push(capacity, lines, line).len() <= capacity,
        ring_push(capacity, lines, line).last() == line,
        ring_push(capacity, lines, line).drop_last() == (if lines.len() == capacity {
            lines.drop_first()
        } else {
            lines
        }),
{
    assert(lines.drop_first().push(line).drop_last() =~= lines.drop_first());
    assert(lines.push(line).drop_last() =~= lines);
}

/// The lines kept after pushing `pushed`, in order, into an empty buffer.
pub open spec fn ring_after(capacity: nat, pushed: Seq<Seq<char>>) -> Seq<Seq<char>>
    decreases pushed.len(),
{
    if pushed.len() == 0 {
        Seq::empty()
    } else {
        ring_push(capacity, ring_after(capacity, pushed.drop_last()), pushed.last())
    }
}

/// Law: a buffer that keeps at least one line holds exactly the last
/// `capacity` lines pushed into it (all of them while there are fewer).
pub proof fn law_ring_holds_the_last_lines(capacity: nat, pushed: Seq<Seq<char>>)
    requires
        capacity > 0,
    ensures
        ring_after(capacity, pushed) == pushed.skip(
            if pushed.len() > capacity {
                pushed.len() - capacity
            } else {
                0
            },
        ),
    decreases pushed.len(),
{
    if pushed.len() > 0 {
        let rest = pushed.drop_last();
        law_ring_holds_the_last_lines(capacity, rest);
        let line = pushed.last();
        if rest.len() >= capacity {
            let kept = rest.skip(rest.len() - capacity);
            assert(kept.drop_first().push(line) =~= pushed.skip(pushed.len() - capacity));
        } else {
            assert(rest.skip(0) =~= rest);
            assert(rest.push(line) =~= pushed);
            assert(pushed.skip(0) =~= pushed);
        }
    } else {
        assert(pushed.skip(0) =~= pushed);
    }
}

} // verus!
