//! The polling state behind the live snapshot: how often to poll, which
//! processes to look up for the listening ports, and how a failed or
//! crashed probe shows up in a snapshot section. The probes, the clock and
//! the event channel are the caller's.
use vstd::prelude::*;
use vstd::string::*;

use crate::ports::PortListener;

verus! {

/// The polling interval while the popover is open, in milliseconds.
pub const ACTIVE_INTERVAL_MS: u64 = 2000;

/// The polling interval while the popover is closed, in milliseconds.
pub const IDLE_INTERVAL_MS: u64 = 8000;

/// Whether the user is looking at the snapshot.
#[derive(Clone, Copy, Debug, PartialEq, Eq, Structural)]
pub enum PollMode {
    Active,
    Idle,
}

/// The polling mode and the interval of each mode.
#[derive(Clone, Copy, Debug)]
pub struct PollState {
    active_interval_ms: u64,
    idle_interval_ms: u64,
    mode: PollMode,
}

impl PollState {
    /// The current mode.
    pub closed spec fn mode_spec(&self) -> PollMode {
        self.mode
    }

    /// The interval used in the active mode.
    pub closed spec fn active_ms(&self) -> u64 {
        self.active_interval_ms
    }

    /// The interval used in the idle mode.
    pub closed spec fn idle_ms(&self) -> u64 {
        self.idle_interval_ms
    }

    /// The interval for the current mode.
    pub open spec fn interval_spec(&self) -> u64 {
        match self.mode_spec() {
            PollMode::Active => self.active_ms(),
            PollMode::Idle => self.idle_ms(),
        }
    }

    /// A state with these intervals, starting idle.
    pub fn new(active_interval_ms: u64, idle_interval_ms: u64) -> (s: Self)
        ensures
            s.mode_spec() == PollMode::Idle,
            s.active_ms() == active_interval_ms,
            s.idle_ms() == idle_interval_ms,
    {
        PollState { active_interval_ms, idle_interval_ms, mode: PollMode::Idle }
    }

    /// The current mode.
    pub fn mode(&self) -> (m: PollMode)
        ensures
            m == self.mode_spec(),
    {
        self.mode
    }

    /// How long to wait before the next poll, in milliseconds.
    pub fn current_interval(&self) -> (ms: u64)
        ensures
            ms == self.interval_spec(),
    {
        match self.mode {
            PollMode::Active => self.active_interval_ms,
            PollMode::Idle => self.idle_interval_ms,
        }
    }

    /// The popover opened: poll at the active interval.
    pub fn set_active(&mut self)
        ensures
            final(self).mode_spec() == PollMode::Active,
            final(self).active_ms() == old(self).active_ms(),
            final(self).idle_ms() == old(self).idle_ms(),
    {
        self.mode = PollMode::Active;
    }

    /// The popover closed: poll at the idle interval.
    pub fn set_idle(&mut self)
        ensures
            final(self).mode_spec() == PollMode::Idle,
            final(self).active_ms() == old(self).active_ms(),
            final(self).idle_ms() == old(self).idle_ms(),
    {
        self.mode = PollMode::Idle;
    }
}

/// Law: the interval follows the last mode change: after `set_active` the
/// state polls at its active interval and after `set_idle` at its idle one,
/// whatever the mode before.
pub proof fn law_interval_follows_mode(before: PollState, after: PollState, active: bool)
    requires
        after.mode_spec() == (if active {
            PollMode::Active
        } else {
            PollMode::Idle
        }),
        after.active_ms() == before.active_ms(),
        after.idle_ms() == before.idle_ms(),
    ensures
        after.interval_spec() == (if active {
            before.active_ms()
        } else {
            before.idle_ms()
        }),
{
}

/// One section of a snapshot: the probe's data, or an empty value and the
/// error when the probe failed.
#[derive(Clone, Debug, PartialEq, Eq)]
pub struct SnapshotSection<T> {
    pub data: T,
    pub error: Option<String>,
}

/// What running a probe in isolation gave.
pub enum ProbeOutcome<T> {
    /// The probe answered.
    Done(T),
    /// The probe reported an error, with its message.
    Failed(String),
    /// The probe panicked.
    Panicked,
}

/// The section for a probe named `name`: its data when it answered;
/// otherwise `empty` and its error message, or `"<name> probe panicked"`.
/// A failing probe never takes the rest of the snapshot down.
pub fn isolated_section<T>(name: &str, outcome: ProbeOutcome<T>, empty: T) -> (s: SnapshotSection<T>)
    ensures
        match outcome {
            ProbeOutcome::Done(d) => s.data == d && s.error is None,
            ProbeOutcome::Failed(e) => s.data == empty && (s.error matches Some(m) && m@ == e@),
            ProbeOutcome::Panicked => s.data == empty && (s.error matches Some(m) && m@ == name@
                + " probe panicked"@),
        },
{
    match outcome {
        ProbeOutcome::Done(data) => SnapshotSection { data, error: None },
        ProbeOutcome::Failed(error) => SnapshotSection { data: empty, error: Some(error) },
        ProbeOutcome::Panicked => SnapshotSection {
            data: empty,
            error: Some(String::from_str(name).concat(" probe panicked")),
        },
    }
}

/// The pids of the processes that own the listeners, in listener order.
pub open spec fn owner_pids(listeners: Seq<PortListener>) -> Seq<u32> {
    listeners.map_values(|l: PortListener| l.process.pid)
}

/// `pids` are the listeners' pids, each once, ascending.
pub open spec fn lookup_pids(listeners: Seq<PortListener>, pids: Seq<u32>) -> bool {
    &&& forall|i: int, j: int| 0 <= i < j < pids.len() ==> pids[i] < pids[j]
    &&& forall|y: u32| pids.contains(y) <==> owner_pids(listeners).contains(y)
}

fn insert_unique(v: &mut Vec<u32>, x: u32)
    requires
        forall|i: int, j: int| 0 <= i < j < old(v)@.len() ==> old(v)@[i] < old(v)@[j],
    ensures
        forall|i: int, j: int| 0 <= i < j < final(v)@.len() ==> final(v)@[i] < final(v)@[j],
        forall|y: u32| final(v)@.contains(y) <==> (old(v)@.contains(y) || y == x),
{
    let ghost s = v@;
    let mut p: usize = 0;
    while p < v.len() && v[p] < x
        invariant
            p <= v@.len(),
            v@ == s,
            forall|i: int, j: int| 0 <= i < j < s.len() ==> s[i] < s[j],
            forall|i: int| 0 <= i < p ==> s[i] < x,
        decreases v@.len() - p,
    {
        p = p + 1;
    }
    if p < v.len() && v[p] == x {
        return;
    }
    v.insert(p, x);
    proof {
        let t = v@;
        assert(t =~= s.insert(p as int, x));
        assert forall|i: int, j: int| 0 <= i < j < t.len() implies t[i] < t[j] by {
            if j < p {
                assert(t[i] == s[i] && t[j] == s[j]);
            } else if j == p {
                assert(t[i] == s[i]);
            } else if i < p {
                assert(t[i] == s[i] && t[j] == s[j - 1]);
                assert(s[j - 1] >= x || j - 1 >= p);
            } else if i == p {
                assert(t[j] == s[j - 1]);
            } else {
                assert(t[i] == s[i - 1] && t[j] == s[j - 1]);
            }
        }
        assert forall|y: u32| t.contains(y) <==> (s.contains(y) || y == x) by {
            if t.contains(y) {
                let k = choose|k: int| 0 <= k < t.len() && t[k] == y;
                if k < p {
                    assert(s[k] == y);
                } else if k > p {
                    assert(s[k - 1] == y);
                }
            }
            if s.contains(y) {
                let k = choose|k: int| 0 <= k < s.len() && s[k] == y;
                if k < p {
                    assert(t[k] == y);
                } else {
                    assert(t[k + 1] == y);
                }
            }
            if y == x {
                assert(t[p as int] == y);
            }
        }
    }
}

/// The pids whose processes a snapshot looks up: those of the listeners,
/// each once, ascending.
pub fn listener_pids(listeners: &Vec<PortListener>) -> (pids: Vec<u32>)
    ensures
        lookup_pids(listeners@, pids@),
{
    let ghost all = owner_pids(listeners@);
    let mut pids: Vec<u32> = Vec::new();
    let mut k: usize = 0;
    while k < listeners.len()
        invariant
            k <= listeners@.len(),
            all == owner_pids(listeners@),
            forall|i: int, j: int| 0 <= i < j < pids@.len() ==> pids@[i] < pids@[j],
            forall|y: u32| pids@.contains(y) <==> all.take(k as int).contains(y),
        decreases listeners@.len() - k,
    {
        let pid = listeners[k].process.pid;
        insert_unique(&mut pids, pid);
        proof {
            assert(all.take(k + 1) =~= all.take(k as int).push(pid));
            assert forall|y: u32| pids@.contains(y) <==> all.take(k + 1).contains(y) by {
                let t0 = all.take(k as int);
                let t1 = all.take(k + 1);
                if t1.contains(y) && y != pid {
                    let m = choose|m: int| 0 <= m < t1.len() && #[trigger] t1[m] == y;
                    assert(t0[m] == y);
                }
                if t0.contains(y) {
                    let m = choose|m: int| 0 <= m < t0.len() && #[trigger] t0[m] == y;
                    assert(t1[m] == y);
                }
                if y == pid {
                    assert(t1[k as int] == y);
                }
            }
        }
        k = k + 1;
    }
    assert(all.take(k as int) =~= all);
    pids
}

/// Polls ports and processes. The probes are the caller's: it runs the
/// port probe, looks up `listener_pids` of its listeners with the process
/// probe, and isolates each with `isolated_section`.
pub struct SnapshotBuilder<P, Q> {
    pub port_probe: P,
    pub process_probe: Q,
}

impl<P, Q> SnapshotBuilder<P, Q> {
    /// A builder over these probes.
    pub fn new(port_probe: P, process_probe: Q) -> (b: Self)
        ensures
            b.port_probe == port_probe,
            b.process_probe == process_probe,
    {
        SnapshotBuilder { port_probe, process_probe }
    }
}

} // verus!
