//! The descendants of a process, found breadth-first from a parent map.
use vstd::prelude::*;

use super::ProcessSnapshot;

verus! {

/// Inserts `x` into an ascending sequence, after any equal elements.
pub open spec fn insert_ascending(s: Seq<u32>, x: u32) -> Seq<u32>
    decreases s.len(),
{
    if s.len() == 0 {
        seq![x]
    } else if x < s[0] {
        seq![x] + s
    } else {
        seq![s[0]] + insert_ascending(s.drop_first(), x)
    }
}

/// The ascending arrangement of `s`.
pub open spec fn ascending(s: Seq<u32>) -> Seq<u32>
    decreases s.len(),
{
    if s.len() == 0 {
        Seq::empty()
    } else {
        insert_ascending(ascending(s.drop_last()), s.last())
    }
}

/// The pids, in list order, of the processes whose parent is `parent`.
pub open spec fn children_in(ps: Seq<ProcessSnapshot>, parent: u32) -> Seq<u32>
    decreases ps.len(),
{
    if ps.len() == 0 {
        Seq::empty()
    } else {
        let rest = children_in(ps.drop_last(), parent);
        if ps.last().parent_pid == Some(parent) {
            rest.push(ps.last().pid)
        } else {
            rest
        }
    }
}

/// The children of `parent`, in ascending pid order.
pub open spec fn children_of(ps: Seq<ProcessSnapshot>, parent: u32) -> Seq<u32> {
    ascending(children_in(ps, parent))
}

/// Breadth-first walk: the pending parents are expanded in turn, each
/// adding its children to the output and to the end of the queue. The walk
/// stops when the queue is empty or `fuel` runs out.
pub open spec fn bfs(ps: Seq<ProcessSnapshot>, queue: Seq<u32>, fuel: nat) -> Seq<u32>
    decreases fuel,
{
    if fuel == 0 || queue.len() == 0 {
        Seq::empty()
    } else {
        let kids = children_of(ps, queue[0]);
        kids + bfs(ps, queue.drop_first() + kids, (fuel - 1) as nat)
    }
}

/// Whether the walk from `queue` ends within `fuel` expansions.
pub open spec fn bfs_ends(ps: Seq<ProcessSnapshot>, queue: Seq<u32>, fuel: nat) -> bool
    decreases fuel,
{
    if queue.len() == 0 {
        true
    } else if fuel == 0 {
        false
    } else {
        bfs_ends(ps, queue.drop_first() + children_of(ps, queue[0]), (fuel - 1) as nat)
    }
}

/// The process tree under `root` is finite: no chain of parents from it
/// loops back (a loop makes the walk run forever).
pub open spec fn tree_is_finite(ps: Seq<ProcessSnapshot>, root: u32) -> bool {
    exists|fuel: nat| bfs_ends(ps, seq![root], fuel)
}

/// The descendants of `root`: its children, then their children, level by
/// level, each family in ascending pid order.
pub open spec fn descendants(ps: Seq<ProcessSnapshot>, root: u32) -> Seq<u32> {
    bfs(ps, seq![root], choose|fuel: nat| bfs_ends(ps, seq![root], fuel))
}

fn insert_sorted(v: &mut Vec<u32>, x: u32)
    ensures
        final(v)@ == insert_ascending(old(v)@, x),
{
    let ghost s = v@;
    let mut p: usize = 0;
    assert(s.take(0) + insert_ascending(s.skip(0), x) =~= insert_ascending(s, x)) by {
        assert(s.skip(0) =~= s);
    }
    while p < v.len() && v[p] <= x
        invariant
            p <= v@.len(),
            v@ == s,
            insert_ascending(s, x) == s.take(p as int) + insert_ascending(s.skip(p as int), x),
        decreases v@.len() - p,
    {
        proof {
            let t = s.skip(p as int);
            assert(t[0] == s[p as int]);
            assert(t.drop_first() =~= s.skip(p + 1));
            assert(insert_ascending(t, x) == seq![t[0]] + insert_ascending(t.drop_first(), x));
            assert(s.take(p + 1) =~= s.take(p as int).push(s[p as int]));
            assert(s.take(p as int) + (seq![s[p as int]] + insert_ascending(s.skip(p + 1), x)) =~= s.take(
                p + 1,
            ) + insert_ascending(s.skip(p + 1), x));
        }
        p = p + 1;
    }
    proof {
        let t = s.skip(p as int);
        if t.len() > 0 {
            assert(t[0] == s[p as int]);
            assert(insert_ascending(t, x) == seq![x] + t);
        } else {
            assert(insert_ascending(t, x) == seq![x]);
        }
        assert(s.insert(p as int, x) =~= s.take(p as int) + insert_ascending(t, x));
    }
    v.insert(p, x);
}

/// The children of `parent` in ascending pid order.
fn collect_children(processes: &[ProcessSnapshot], parent: u32) -> (kids: Vec<u32>)
    ensures
        kids@ == children_of(processes@, parent),
{
    let mut found: Vec<u32> = Vec::new();
    let ghost ps = processes@;
    let mut i: usize = 0;
    while i < processes.len()
        invariant
            i <= processes@.len(),
            ps == processes@,
            found@ == ascending(children_in(ps.take(i as int), parent)),
        decreases processes@.len() - i,
    {
        let p = processes[i];
        proof {
            assert(ps.take(i + 1).drop_last() =~= ps.take(i as int));
            assert(ps.take(i + 1).last() == p);
        }
        let ghost before = children_in(ps.take(i as int), parent);
        if p.parent_pid == Some(parent) {
            insert_sorted(&mut found, p.pid);
            proof {
                let after = children_in(ps.take(i + 1), parent);
                assert(after == before.push(p.pid));
                assert(after.drop_last() =~= before);
                assert(ascending(after) == insert_ascending(ascending(before), p.pid));
            }
        } else {
            assert(children_in(ps.take(i + 1), parent) == before);
        }
        i = i + 1;
    }
    assert(ps.take(processes@.len() as int) =~= ps);
    found
}

/// Whether the breadth-first walk from `root` ends within `fuel`
/// expansions; when it does, the tree under `root` is finite.
pub fn tree_walk_ends_within(processes: &[ProcessSnapshot], root: u32, fuel: u64) -> (ends: bool)
    ensures
        ends == bfs_ends(processes@, seq![root], fuel as nat),
        ends ==> tree_is_finite(processes@, root),
{
    let ghost ps = processes@;
    let mut pending: Vec<u32> = Vec::new();
    pending.push(root);
    let mut head: usize = 0;
    let mut left: u64 = fuel;
    while head < pending.len()
        invariant
            head <= pending@.len(),
            ps == processes@,
            bfs_ends(ps, pending@.skip(head as int), left as nat) == bfs_ends(ps, seq![root], fuel as nat),
        decreases left,
    {
        if left == 0 {
            proof {
                assert(pending@.skip(head as int).len() > 0);
            }
            return false;
        }
        let parent = pending[head];
        let kids = collect_children(processes, parent);
        let ghost queue = pending@.skip(head as int);
        let ghost pending0 = pending@;
        let mut k: usize = 0;
        while k < kids.len()
            invariant
                k <= kids@.len(),
                pending@ == pending0 + kids@.take(k as int),
            decreases kids@.len() - k,
        {
            pending.push(kids[k]);
            proof {
                assert(kids@.take(k + 1) =~= kids@.take(k as int).push(kids@[k as int]));
            }
            k = k + 1;
        }
        proof {
            assert(queue[0] == parent);
            assert(kids@.take(kids@.len() as int) =~= kids@);
            assert(pending@.skip(head + 1) =~= queue.drop_first() + kids@);
        }
        head = head + 1;
        left = left - 1;
    }
    proof {
        assert(pending@.skip(head as int).len() == 0);
    }
    true
}

/// The descendants of `root_pid` in `processes`: its children, then theirs,
/// breadth-first, each family in ascending pid order. The tree under the
/// root must be finite (no parent loop), else the walk would not end.
pub fn descendants_of(root_pid: u32, processes: &[ProcessSnapshot]) -> (found: Vec<u32>)
    requires
        tree_is_finite(processes@, root_pid),
    ensures
        found@ == descendants(processes@, root_pid),
{
    let ghost ps = processes@;
    let ghost fuel = choose|fuel: nat| bfs_ends(ps, seq![root_pid], fuel);
    let mut found: Vec<u32> = Vec::new();
    let mut pending: Vec<u32> = Vec::new();
    pending.push(root_pid);
    let mut head: usize = 0;
    let ghost mut left: nat = fuel;
    while head < pending.len()
        invariant
            head <= pending@.len(),
            ps == processes@,
            bfs_ends(ps, pending@.skip(head as int), left),
            found@ + bfs(ps, pending@.skip(head as int), left) == bfs(ps, seq![root_pid], fuel),
        decreases left,
    {
        let parent = pending[head];
        let kids = collect_children(processes, parent);
        let ghost queue = pending@.skip(head as int);
        proof {
            assert(queue[0] == parent);
            assert(left > 0);
        }
        let mut k: usize = 0;
        let ghost found0 = found@;
        let ghost pending0 = pending@;
        while k < kids.len()
            invariant
                k <= kids@.len(),
                found@ == found0 + kids@.take(k as int),
                pending@ == pending0 + kids@.take(k as int),
            decreases kids@.len() - k,
        {
            found.push(kids[k]);
            pending.push(kids[k]);
            proof {
                assert(kids@.take(k + 1) =~= kids@.take(k as int).push(kids@[k as int]));
            }
            k = k + 1;
        }
        proof {
            assert(kids@.take(kids@.len() as int) =~= kids@);
            assert(pending@.skip(head + 1) =~= queue.drop_first() + kids@);
            assert(found@ + bfs(ps, pending@.skip(head + 1), (left - 1) as nat) =~= found0 + (kids@ + bfs(
                ps,
                queue.drop_first() + kids@,
                (left - 1) as nat,
            )));
            left = (left - 1) as nat;
        }
        head = head + 1;
    }
    proof {
        assert(pending@.skip(head as int).len() == 0);
        assert(found@ =~= bfs(ps, seq![root_pid], fuel));
    }
    found
}

/// `pid` is listed in `ps` with parent `parent`.
pub open spec fn is_child(ps: Seq<ProcessSnapshot>, pid: u32, parent: u32) -> bool {
    exists|k: int| 0 <= k < ps.len() && (#[trigger] ps[k]).pid == pid && ps[k].parent_pid == Some(parent)
}

proof fn lemma_insert_ascending_contains(s: Seq<u32>, x: u32, y: u32)
    ensures
        insert_ascending(s, x).contains(y) <==> (s.contains(y) || y == x),
    decreases s.len(),
{
    if s.len() == 0 {
        assert(insert_ascending(s, x) == seq![x]);
        assert(seq![x][0] == x);
    } else if x < s[0] {
        let r = seq![x] + s;
        assert(r[0] == x);
        if s.contains(y) {
            let k = choose|k: int| 0 <= k < s.len() && s[k] == y;
            assert(r[k + 1] == y);
        }
        if r.contains(y) && y != x {
            let k = choose|k: int| 0 <= k < r.len() && r[k] == y;
            assert(s[k - 1] == y);
        }
    } else {
        let t = s.drop_first();
        lemma_insert_ascending_contains(t, x, y);
        let r = seq![s[0]] + insert_ascending(t, x);
        assert(insert_ascending(s, x) == r);
        if r.contains(y) {
            let k = choose|k: int| 0 <= k < r.len() && r[k] == y;
            if k == 0 {
                assert(s[0] == y);
            } else {
                assert(insert_ascending(t, x)[k - 1] == y);
                if t.contains(y) {
                    let m = choose|m: int| 0 <= m < t.len() && t[m] == y;
                    assert(s[m + 1] == y);
                }
            }
        }
        if s.contains(y) {
            let k = choose|k: int| 0 <= k < s.len() && s[k] == y;
            if k == 0 {
                assert(r[0] == y);
            } else {
                assert(t[k - 1] == y);
                let m = choose|m: int| 0 <= m < insert_ascending(t, x).len() && insert_ascending(t, x)[m] == y;
                assert(r[m + 1] == y);
            }
        }
        if y == x {
            let m = choose|m: int| 0 <= m < insert_ascending(t, x).len() && insert_ascending(t, x)[m] == y;
            assert(r[m + 1] == y);
        }
    }
}

proof fn lemma_ascending_contains(s: Seq<u32>, y: u32)
    ensures
        ascending(s).contains(y) <==> s.contains(y),
    decreases s.len(),
{
    if s.len() > 0 {
        lemma_ascending_contains(s.drop_last(), y);
        lemma_insert_ascending_contains(ascending(s.drop_last()), s.last(), y);
        if s.drop_last().contains(y) {
            let k = choose|k: int| 0 <= k < s.drop_last().len() && s.drop_last()[k] == y;
            assert(s[k] == y);
        }
        if s.contains(y) && y != s.last() {
            let k = choose|k: int| 0 <= k < s.len() && s[k] == y;
            assert(s.drop_last()[k] == y);
        }
        if y == s.last() {
            assert(s[s.len() - 1] == y);
        }
    }
}

proof fn lemma_children_in_contains(ps: Seq<ProcessSnapshot>, parent: u32, c: u32)
    ensures
        children_in(ps, parent).contains(c) <==> is_child(ps, c, parent),
    decreases ps.len(),
{
    if ps.len() > 0 {
        let rest = ps.drop_last();
        lemma_children_in_contains(rest, parent, c);
        let cr = children_in(rest, parent);
        if is_child(rest, c, parent) {
            let k = choose|k: int| 0 <= k < rest.len() && (#[trigger] rest[k]).pid == c && rest[k].parent_pid == Some(parent);
            assert(ps[k] == rest[k]);
        }
        if is_child(ps, c, parent) {
            let k = choose|k: int| 0 <= k < ps.len() && (#[trigger] ps[k]).pid == c && ps[k].parent_pid == Some(parent);
            if k < ps.len() - 1 {
                assert(rest[k] == ps[k]);
            }
        }
        if ps.last().parent_pid == Some(parent) {
            assert(cr.push(ps.last().pid)[cr.len() as int] == ps.last().pid);
            if cr.push(ps.last().pid).contains(c) && c != ps.last().pid {
                let k = choose|k: int| 0 <= k < cr.len() + 1 && cr.push(ps.last().pid)[k] == c;
                assert(cr[k] == c);
            }
            if cr.contains(c) {
                let k = choose|k: int| 0 <= k < cr.len() && cr[k] == c;
                assert(cr.push(ps.last().pid)[k] == c);
            }
            if c == ps.last().pid {
                assert(ps[ps.len() - 1].pid == c);
            }
        }
    } else {
        assert(!is_child(ps, c, parent));
    }
}

proof fn lemma_children_of_contains(ps: Seq<ProcessSnapshot>, parent: u32, c: u32)
    ensures
        children_of(ps, parent).contains(c) <==> is_child(ps, c, parent),
{
    lemma_ascending_contains(children_in(ps, parent), c);
    lemma_children_in_contains(ps, parent, c);
}

/// `out[i]` is a child of a pid in `known` or of an earlier pid of `out`.
spec fn found_below(ps: Seq<ProcessSnapshot>, known: Seq<u32>, out: Seq<u32>, i: int) -> bool {
    exists|a: int| 0 <= a < known.len() + i && is_child(ps, out[i], #[trigger] (known + out.take(i))[a])
}

proof fn lemma_bfs_sound(ps: Seq<ProcessSnapshot>, queue: Seq<u32>, fuel: nat, known: Seq<u32>)
    requires
        forall|q: int| 0 <= q < queue.len() ==> known.contains(#[trigger] queue[q]),
    ensures
        forall|i: int| 0 <= i < bfs(ps, queue, fuel).len() ==> #[trigger] found_below(ps, known, bfs(ps, queue, fuel), i),
    decreases fuel,
{
    if fuel > 0 && queue.len() > 0 {
        let x = queue[0];
        let kids = children_of(ps, x);
        let next = queue.drop_first() + kids;
        let known2 = known + kids;
        assert forall|q: int| 0 <= q < next.len() implies known2.contains(#[trigger] next[q]) by {
            if q < queue.len() - 1 {
                assert(next[q] == queue[q + 1]);
                assert(known.contains(queue[q + 1]));
                let m = choose|m: int| 0 <= m < known.len() && known[m] == queue[q + 1];
                assert(known2[m] == next[q]);
            } else {
                assert(next[q] == kids[q - (queue.len() - 1)]);
                assert(known2[known.len() + q - (queue.len() - 1)] == next[q]);
            }
        }
        lemma_bfs_sound(ps, next, (fuel - 1) as nat, known2);
        let rest = bfs(ps, next, (fuel - 1) as nat);
        let out = bfs(ps, queue, fuel);
        assert(out == kids + rest);
        assert(known.contains(x));
        let mx = choose|m: int| 0 <= m < known.len() && known[m] == x;
        assert forall|i: int| 0 <= i < out.len() implies #[trigger] found_below(ps, known, out, i) by {
            if i < kids.len() {
                assert(kids.contains(out[i]));
                lemma_children_of_contains(ps, x, out[i]);
                assert((known + out.take(i))[mx] == x);
            } else {
                let j = i - kids.len();
                assert(out[i] == rest[j]);
                assert(found_below(ps, known2, rest, j));
                let a = choose|a: int| 0 <= a < known2.len() + j && is_child(ps, rest[j], #[trigger] (known2 + rest.take(j))[a]);
                assert(known2 + rest.take(j) =~= known + out.take(i));
                assert((known + out.take(i))[a] == (known2 + rest.take(j))[a]);
            }
        }
    }
}

proof fn lemma_bfs_complete(ps: Seq<ProcessSnapshot>, queue: Seq<u32>, fuel: nat, x: u32, c: u32)
    requires
        bfs_ends(ps, queue, fuel),
        queue.contains(x) || bfs(ps, queue, fuel).contains(x),
        is_child(ps, c, x),
    ensures
        bfs(ps, queue, fuel).contains(c),
    decreases fuel,
{
    let y = queue[0];
    let kids = children_of(ps, y);
    let next = queue.drop_first() + kids;
    let rest = bfs(ps, next, (fuel - 1) as nat);
    let out = bfs(ps, queue, fuel);
    assert(out == kids + rest);
    if x == y {
        lemma_children_of_contains(ps, y, c);
        let k = choose|k: int| 0 <= k < kids.len() && kids[k] == c;
        assert(out[k] == c);
    } else {
        let in_next = if queue.contains(x) {
            let k = choose|k: int| 0 <= k < queue.len() && queue[k] == x;
            assert(next[k - 1] == x);
            true
        } else {
            let k = choose|k: int| 0 <= k < out.len() && out[k] == x;
            if k < kids.len() {
                assert(next[queue.len() - 1 + k] == x);
                true
            } else {
                assert(rest[k - kids.len()] == x);
                false
            }
        };
        assert(next.contains(x) || rest.contains(x));
        lemma_bfs_complete(ps, next, (fuel - 1) as nat, x, c);
        let k = choose|k: int| 0 <= k < rest.len() && rest[k] == c;
        assert(out[kids.len() + k] == c);
    }
}

/// Law: the descendants are exactly the processes below the root: each
/// one is a child of the root or of a descendant found before it, and every
/// child of the root or of a descendant is among them.
pub proof fn law_descendants_are_the_subtree(ps: Seq<ProcessSnapshot>, root: u32)
    requires
        tree_is_finite(ps, root),
    ensures
        forall|i: int|
            0 <= i < descendants(ps, root).len() ==> is_child(ps, #[trigger] descendants(ps, root)[i], root) || exists|j: int|
                0 <= j < i && is_child(ps, descendants(ps, root)[i], #[trigger] descendants(ps, root)[j]),
        forall|c: u32| #[trigger] is_child(ps, c, root) ==> descendants(ps, root).contains(c),
        forall|x: u32, c: u32|
            descendants(ps, root).contains(x) && #[trigger] is_child(ps, c, x) ==> descendants(ps, root).contains(c),
{
    let fuel = choose|fuel: nat| bfs_ends(ps, seq![root], fuel);
    let d = descendants(ps, root);
    let q = seq![root];
    assert(q[0] == root);
    assert(q.contains(root));
    lemma_bfs_sound(ps, q, fuel, q);
    assert forall|i: int| 0 <= i < d.len() implies is_child(ps, #[trigger] d[i], root) || exists|j: int|
        0 <= j < i && is_child(ps, d[i], #[trigger] d[j]) by {
        assert(found_below(ps, q, d, i));
        let a = choose|a: int| 0 <= a < q.len() + i && is_child(ps, d[i], #[trigger] (q + d.take(i))[a]);
        if a > 0 {
            assert((q + d.take(i))[a] == d[a - 1]);
        }
    }
    assert forall|c: u32| #[trigger] is_child(ps, c, root) implies d.contains(c) by {
        lemma_bfs_complete(ps, q, fuel, root, c);
    }
    assert forall|x: u32, c: u32| d.contains(x) && #[trigger] is_child(ps, c, x) implies d.contains(c) by {
        lemma_bfs_complete(ps, q, fuel, x, c);
    }
}

} // verus!
