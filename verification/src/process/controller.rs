//! Killing a process tree safely.
//!
//! Before any signal, the target is revalidated: it must still be alive with
//! the start time and executable the user saw, and, when the row came from a
//! port, it must still own that port. Then the whole tree (the target and its
//! descendants, found at kill time) gets SIGTERM; whatever survives the grace
//! period gets SIGKILL; whatever survives that is reported. Finally, when a
//! port was expected, the kill waits for the port to be released.
//!
//! The controller is a state machine: [`KillTree::step`] takes the result of
//! the last action and says what to do next. The caller performs the actions
//! (process queries, port scans, signals, sleeps) and keeps the clock.
use vstd::prelude::*;
use vstd::string::*;

use super::descendants::{descendants, tree_is_finite};
use super::{descendants_of, ProcessSnapshot};
use crate::ports::normalize::opt_text;
use crate::ports::PortListener;
use crate::text::{decimal, decimal_string};

verus! {

/// The process the user chose to kill, as the user saw it.
#[derive(Clone, Debug, PartialEq, Eq)]
pub struct KillTarget {
    pub pid: u32,
    pub executable: Option<String>,
    pub start_time: u64,
    pub expected_port: Option<u16>,
}

/// The identity of a live process: what tells a process from a later one
/// that reuses its pid.
#[derive(Clone, Debug, PartialEq, Eq)]
pub struct ProcessIdentity {
    pub pid: u32,
    pub executable: Option<String>,
    pub start_time: u64,
}

/// A signal sent to a process.
#[derive(Clone, Copy, Debug, PartialEq, Eq, Structural)]
pub enum ProcessSignal {
    Terminate,
    Kill,
}

/// Why a process operation failed.
#[derive(Clone, Debug, PartialEq, Eq)]
pub enum ProcessError {
    Inspect(String),
    NotFound(u32),
    IdentityMismatch { pid: u32 },
    PortOwnerMismatch { pid: u32, port: u16 },
    SignalFailed { pid: u32, signal: ProcessSignal },
    StillRunning(Vec<u32>),
    PortStillListening(u16),
    PortVerification(String),
}

/// The pids of a list, as `{:?}` prints them inside the brackets: decimal,
/// separated by `", "`.
pub open spec fn pid_list_text(pids: Seq<u32>) -> Seq<char>
    decreases pids.len(),
{
    if pids.len() == 0 {
        Seq::empty()
    } else if pids.len() == 1 {
        decimal(pids[0] as nat)
    } else {
        pid_list_text(pids.drop_last()) + ", "@ + decimal(pids.last() as nat)
    }
}

/// The name of a signal, as `{:?}` prints it.
pub open spec fn signal_name(signal: ProcessSignal) -> Seq<char> {
    match signal {
        ProcessSignal::Terminate => "Terminate"@,
        ProcessSignal::Kill => "Kill"@,
    }
}

impl ProcessError {
    /// The message of this error.
    pub open spec fn message_text(self) -> Seq<char> {
        match self {
            ProcessError::Inspect(e) => "failed to inspect processes: "@ + e@,
            ProcessError::NotFound(pid) => "process "@ + decimal(pid as nat) + " is no longer running"@,
            ProcessError::IdentityMismatch { pid } => "process "@ + decimal(pid as nat)
                + " no longer matches the selected row"@,
            ProcessError::PortOwnerMismatch { pid, port } => "process "@ + decimal(pid as nat) + " no longer owns port "@
                + decimal(port as nat),
            ProcessError::SignalFailed { pid, signal } => "failed to send "@ + signal_name(signal) + " to process "@
                + decimal(pid as nat),
            ProcessError::StillRunning(pids) => "processes are still running after signal escalation: ["@
                + pid_list_text(pids@) + "]"@,
            ProcessError::PortStillListening(port) => "port "@ + decimal(port as nat)
                + " is still listening after the process tree was killed"@,
            ProcessError::PortVerification(e) => "failed to verify port release: "@ + e@,
        }
    }

    /// The error's message.
    pub fn message(&self) -> (m: String)
        ensures
            m@ == self.message_text(),
    {
        match self {
            ProcessError::Inspect(e) => String::from_str("failed to inspect processes: ").concat(e.as_str()),
            ProcessError::NotFound(pid) => String::from_str("process ").concat(
                decimal_string(*pid as u64).as_str(),
            ).concat(" is no longer running"),
            ProcessError::IdentityMismatch { pid } => String::from_str("process ").concat(
                decimal_string(*pid as u64).as_str(),
            ).concat(" no longer matches the selected row"),
            ProcessError::PortOwnerMismatch { pid, port } => String::from_str("process ").concat(
                decimal_string(*pid as u64).as_str(),
            ).concat(" no longer owns port ").concat(decimal_string(*port as u64).as_str()),
            ProcessError::SignalFailed { pid, signal } => {
                let name = match signal {
                    ProcessSignal::Terminate => "Terminate",
                    ProcessSignal::Kill => "Kill",
                };
                String::from_str("failed to send ").concat(name).concat(" to process ").concat(
                    decimal_string(*pid as u64).as_str(),
                )
            },
            ProcessError::StillRunning(pids) => {
                let mut list = String::new();
                let mut i: usize = 0;
                while i < pids.len()
                    invariant
                        i <= pids@.len(),
                        list@ == pid_list_text(pids@.take(i as int)),
                    decreases pids@.len() - i,
                {
                    let pid_text = decimal_string(pids[i] as u64);
                    proof {
                        assert(pids@.take(i + 1).drop_last() =~= pids@.take(i as int));
                        assert(pids@.take(i + 1).last() == pids@[i as int]);
                    }
                    if i > 0 {
                        list.append(", ");
                    }
                    list.append(pid_text.as_str());
                    i = i + 1;
                }
                assert(pids@.take(pids@.len() as int) =~= pids@);
                String::from_str("processes are still running after signal escalation: [").concat(
                    list.as_str(),
                ).concat("]")
            },
            ProcessError::PortStillListening(port) => String::from_str("port ").concat(
                decimal_string(*port as u64).as_str(),
            ).concat(" is still listening after the process tree was killed"),
            ProcessError::PortVerification(e) => String::from_str("failed to verify port release: ").concat(
                e.as_str(),
            ),
        }
    }
}

/// Where a tree kill stands: which result it waits for.
pub enum KillPhase {
    /// Waiting for the target's identity.
    Revalidate,
    /// Waiting for a port scan: does the target still own the port?
    CheckOwner,
    /// Waiting for the process list, to find the tree.
    ListTree,
    /// Waiting for the result of sending `signal` to `pids[next]`.
    Signal { pids: Vec<u32>, next: usize, signal: ProcessSignal },
    /// Waiting to learn which of `pids` are still alive after `signal`.
    Wait { pids: Vec<u32>, signal: ProcessSignal },
    /// Sleeping before checking `pids` again.
    Pause { pids: Vec<u32>, signal: ProcessSignal },
    /// Waiting for a port scan: is the port released?
    VerifyRelease,
    /// Sleeping before scanning the port again.
    PauseRelease,
    /// Finished.
    Done,
}

/// What the caller must do next.
pub enum KillAction {
    /// Look up the identity of `pid` (`info_for_pids(&[pid])`).
    QueryIdentity { pid: u32 },
    /// Scan the listening ports; when `start_clock`, a new deadline begins
    /// (now plus the grace period).
    ScanPorts { start_clock: bool },
    /// List all processes with their parents.
    ListProcesses,
    /// Send `signal` to `pid`.
    Signal { pid: u32, signal: ProcessSignal },
    /// Look up which of `pids` are alive; when `start_clock`, a new deadline
    /// begins (now plus the grace period).
    CheckAlive { pids: Vec<u32>, start_clock: bool },
    /// Sleep for the poll interval.
    Sleep,
    /// The kill is over, with this outcome.
    Finish(Result<(), ProcessError>),
}

/// The result of the last action. `deadline_passed` tells whether the
/// current deadline had passed when the result came in.
pub enum KillEvent {
    Identities(Result<Vec<ProcessIdentity>, ProcessError>),
    Listeners { result: Result<Vec<PortListener>, String>, deadline_passed: bool },
    Processes(Result<Vec<ProcessSnapshot>, ProcessError>),
    SignalSent(Result<bool, ProcessError>),
    Alive { result: Result<Vec<ProcessIdentity>, ProcessError>, deadline_passed: bool },
    Slept,
}

/// A live process still is the one the user chose.
pub open spec fn identity_matches(live: ProcessIdentity, target: KillTarget) -> bool {
    live.start_time == target.start_time && opt_text(live.executable) == opt_text(target.executable)
}

/// Some listener on `port` belongs to `pid`.
pub open spec fn owns_port(ls: Seq<PortListener>, port: u16, pid: u32) -> bool {
    exists|i: int| 0 <= i < ls.len() && (#[trigger] ls[i]).socket.port == port && ls[i].process.pid == pid
}

/// Some listener is on `port`.
pub open spec fn port_in_use(ls: Seq<PortListener>, port: u16) -> bool {
    exists|i: int| 0 <= i < ls.len() && (#[trigger] ls[i]).socket.port == port
}

/// The pids of live processes, in order.
pub open spec fn pids_of(infos: Seq<ProcessIdentity>) -> Seq<u32> {
    infos.map_values(|p: ProcessIdentity| p.pid)
}

/// The action that follows a successful revalidation.
pub open spec fn after_identity(target: KillTarget, phase: KillPhase, action: KillAction) -> bool {
    match target.expected_port {
        Some(_) => phase is CheckOwner && action == (KillAction::ScanPorts { start_clock: false }),
        None => phase is ListTree && action is ListProcesses,
    }
}

/// The action that follows the wait of the last round: the port check when
/// a port is expected, success otherwise.
pub open spec fn after_tree_gone(target: KillTarget, phase: KillPhase, action: KillAction) -> bool {
    match target.expected_port {
        Some(_) => phase is VerifyRelease && action == (KillAction::ScanPorts { start_clock: true }),
        None => phase is Done && action == KillAction::Finish(Ok(())),
    }
}

/// The transition relation of a tree kill: from `phase`, on `event`, the
/// machine moves to `next` and asks for `action`.
pub open spec fn kill_step(
    target: KillTarget,
    phase: KillPhase,
    event: KillEvent,
    next: KillPhase,
    action: KillAction,
) -> bool {
    match phase {
        KillPhase::Revalidate => match event {
            KillEvent::Identities(Err(e)) => next is Done && action == KillAction::Finish(Err(e)),
            KillEvent::Identities(Ok(infos)) => if infos@.len() == 0 {
                next is Done && action == KillAction::Finish(Err(ProcessError::NotFound(target.pid)))
            } else if !identity_matches(infos@.last(), target) {
                next is Done && action == KillAction::Finish(
                    Err(ProcessError::IdentityMismatch { pid: target.pid }),
                )
            } else {
                after_identity(target, next, action)
            },
            _ => false,
        },
        KillPhase::CheckOwner => match event {
            KillEvent::Listeners { result: Err(msg), .. } => next is Done && action == KillAction::Finish(
                Err(ProcessError::PortVerification(msg)),
            ),
            KillEvent::Listeners { result: Ok(ls), .. } => {
                let port = target.expected_port.unwrap();
                if owns_port(ls@, port, target.pid) {
                    next is ListTree && action is ListProcesses
                } else {
                    next is Done && action == KillAction::Finish(
                        Err(ProcessError::PortOwnerMismatch { pid: target.pid, port }),
                    )
                }
            },
            _ => false,
        },
        KillPhase::ListTree => match event {
            KillEvent::Processes(Err(e)) => next is Done && action == KillAction::Finish(Err(e)),
            KillEvent::Processes(Ok(ps)) => {
                let tree = seq![target.pid] + descendants(ps@, target.pid);
                &&& next matches KillPhase::Signal { pids, next: 0, signal: ProcessSignal::Terminate } && pids@ == tree
                &&& action == (KillAction::Signal { pid: target.pid, signal: ProcessSignal::Terminate })
            },
            _ => false,
        },
        KillPhase::Signal { pids, next: i, signal } => match event {
            KillEvent::SignalSent(Err(e)) => next is Done && action == KillAction::Finish(Err(e)),
            KillEvent::SignalSent(Ok(false)) => next is Done && action == KillAction::Finish(
                Err(ProcessError::SignalFailed { pid: pids@[i as int], signal }),
            ),
            KillEvent::SignalSent(Ok(true)) => if i + 1 < pids@.len() {
                &&& next matches KillPhase::Signal { pids: p2, next: i2, signal: s2 } && p2@ == pids@ && i2 == i
                    + 1 && s2 == signal
                &&& action == (KillAction::Signal { pid: pids@[i + 1], signal })
            } else {
                &&& next matches KillPhase::Wait { pids: p2, signal: s2 } && p2@ == pids@ && s2 == signal
                &&& action matches KillAction::CheckAlive { pids: p3, start_clock: true } && p3@ == pids@
            },
            _ => false,
        },
        KillPhase::Wait { pids, signal } => match event {
            KillEvent::Alive { result: Err(e), .. } => next is Done && action == KillAction::Finish(Err(e)),
            KillEvent::Alive { result: Ok(infos), deadline_passed } => {
                let live = pids_of(infos@);
                if live.len() == 0 {
                    after_tree_gone(target, next, action)
                } else if deadline_passed {
                    if signal == ProcessSignal::Terminate {
                        &&& next matches KillPhase::Signal { pids: p2, next: 0, signal: ProcessSignal::Kill }
                            && p2@ == live
                        &&& action == (KillAction::Signal { pid: live[0], signal: ProcessSignal::Kill })
                    } else {
                        &&& next is Done
                        &&& action matches KillAction::Finish(Err(ProcessError::StillRunning(left))) && left@
                            == live
                    }
                } else {
                    &&& next matches KillPhase::Pause { pids: p2, signal: s2 } && p2@ == pids@ && s2 == signal
                    &&& action is Sleep
                }
            },
            _ => false,
        },
        KillPhase::Pause { pids, signal } => match event {
            KillEvent::Slept => {
                &&& next matches KillPhase::Wait { pids: p2, signal: s2 } && p2@ == pids@ && s2 == signal
                &&& action matches KillAction::CheckAlive { pids: p3, start_clock: false } && p3@ == pids@
            },
            _ => false,
        },
        KillPhase::VerifyRelease => match event {
            KillEvent::Listeners { result: Err(msg), .. } => next is Done && action == KillAction::Finish(
                Err(ProcessError::PortVerification(msg)),
            ),
            KillEvent::Listeners { result: Ok(ls), deadline_passed } => {
                let port = target.expected_port.unwrap();
                if !port_in_use(ls@, port) {
                    next is Done && action == KillAction::Finish(Ok(()))
                } else if deadline_passed {
                    next is Done && action == KillAction::Finish(Err(ProcessError::PortStillListening(port)))
                } else {
                    next is PauseRelease && action is Sleep
                }
            },
            _ => false,
        },
        KillPhase::PauseRelease => match event {
            KillEvent::Slept => next is VerifyRelease && action == (KillAction::ScanPorts { start_clock: false }),
            _ => false,
        },
        KillPhase::Done => false,
    }
}

/// Whether `event` is the kind of result the action asked for in `phase`.
pub open spec fn answers(phase: KillPhase, event: KillEvent) -> bool {
    match phase {
        KillPhase::Revalidate => event is Identities,
        KillPhase::CheckOwner => event is Listeners,
        KillPhase::ListTree => event is Processes,
        KillPhase::Signal { .. } => event is SignalSent,
        KillPhase::Wait { .. } => event is Alive,
        KillPhase::Pause { .. } => event is Slept,
        KillPhase::VerifyRelease => event is Listeners,
        KillPhase::PauseRelease => event is Slept,
        KillPhase::Done => false,
    }
}

/// Whether the machine can take `event`: it answers the last action and,
/// for a process list, the tree under the target is finite (else the walk
/// over it would not end).
pub open spec fn expects(target: KillTarget, phase: KillPhase, event: KillEvent) -> bool {
    &&& answers(phase, event)
    &&& match event {
        KillEvent::Processes(Ok(ps)) => tree_is_finite(ps@, target.pid),
        _ => true,
    }
}

/// The invariant of a running kill: the phase's data is consistent.
pub open spec fn phase_ok(target: KillTarget, phase: KillPhase) -> bool {
    match phase {
        KillPhase::CheckOwner => target.expected_port is Some,
        KillPhase::Signal { pids, next, .. } => next < pids@.len(),
        KillPhase::Wait { pids, .. } => pids@.len() > 0,
        KillPhase::Pause { pids, .. } => pids@.len() > 0,
        KillPhase::VerifyRelease => target.expected_port is Some,
        KillPhase::PauseRelease => target.expected_port is Some,
        _ => true,
    }
}

/// Kills process trees through a process probe and a port probe. The
/// probes, the sleeps and the clock are the caller's: it starts a kill
/// with `kill_tree`, performs each action the `KillTree` asks for, waits
/// `poll_interval_ms` on `Sleep`, tells a wait or a release check that its
/// deadline passed `grace_period_ms` after its clock started, and feeds
/// the results back until the kill is done.
pub struct ProcessController<P, Q> {
    pub process_probe: P,
    pub port_probe: Q,
    pub grace_period_ms: u64,
    pub poll_interval_ms: u64,
}

impl<P, Q> ProcessController<P, Q> {
    /// A controller over these probes and timings.
    pub fn new(process_probe: P, port_probe: Q, grace_period_ms: u64, poll_interval_ms: u64) -> (c: Self)
        ensures
            c.process_probe == process_probe,
            c.port_probe == port_probe,
            c.grace_period_ms == grace_period_ms,
            c.poll_interval_ms == poll_interval_ms,
    {
        ProcessController { process_probe, port_probe, grace_period_ms, poll_interval_ms }
    }

    /// Begins killing the tree of `target`: the kill first revalidates the
    /// target's identity.
    pub fn kill_tree(&self, target: KillTarget) -> (r: (KillTree, KillAction))
        ensures
            r.0.target() == target,
            r.0.phase() is Revalidate,
            r.1 == (KillAction::QueryIdentity { pid: target.pid }),
    {
        KillTree::start(target)
    }
}

/// A tree kill in progress.
pub struct KillTree {
    target: KillTarget,
    phase: KillPhase,
}

fn copy_pids(v: &Vec<u32>) -> (r: Vec<u32>)
    ensures
        r@ == v@,
{
    let mut out: Vec<u32> = Vec::new();
    let mut i: usize = 0;
    while i < v.len()
        invariant
            i <= v@.len(),
            out@ == v@.take(i as int),
        decreases v@.len() - i,
    {
        out.push(v[i]);
        assert(v@.take(i + 1) =~= v@.take(i as int).push(v@[i as int]));
        i = i + 1;
    }
    assert(v@.take(v@.len() as int) =~= v@);
    out
}

fn same_text(a: &Option<String>, b: &Option<String>) -> (r: bool)
    ensures
        r == (opt_text(*a) == opt_text(*b)),
{
    match (a, b) {
        (Some(x), Some(y)) => *x == *y,
        (None, None) => true,
        _ => false,
    }
}

/// Whether the live process is still the one the user chose.
fn identity_matches_exec(live: &ProcessIdentity, target: &KillTarget) -> (r: bool)
    ensures
        r == identity_matches(*live, *target),
{
    live.start_time == target.start_time && same_text(&live.executable, &target.executable)
}

/// Whether a listener on `port` belongs to `pid`.
pub fn port_owned_by(listeners: &Vec<PortListener>, port: u16, pid: u32) -> (r: bool)
    ensures
        r == owns_port(listeners@, port, pid),
{
    let mut i: usize = 0;
    while i < listeners.len()
        invariant
            i <= listeners@.len(),
            forall|j: int| 0 <= j < i ==> !((#[trigger] listeners@[j]).socket.port == port && listeners@[j].process.pid == pid),
        decreases listeners@.len() - i,
    {
        if listeners[i].socket.port == port && listeners[i].process.pid == pid {
            return true;
        }
        i = i + 1;
    }
    false
}

/// Whether some listener is on `port`.
pub fn port_listening(listeners: &Vec<PortListener>, port: u16) -> (r: bool)
    ensures
        r == port_in_use(listeners@, port),
{
    let mut i: usize = 0;
    while i < listeners.len()
        invariant
            i <= listeners@.len(),
            forall|j: int| 0 <= j < i ==> (#[trigger] listeners@[j]).socket.port != port,
        decreases listeners@.len() - i,
    {
        if listeners[i].socket.port == port {
            return true;
        }
        i = i + 1;
    }
    false
}

fn live_pids(infos: &Vec<ProcessIdentity>) -> (pids: Vec<u32>)
    ensures
        pids@ == pids_of(infos@),
{
    let mut out: Vec<u32> = Vec::new();
    let mut i: usize = 0;
    while i < infos.len()
        invariant
            i <= infos@.len(),
            out@ == pids_of(infos@.take(i as int)),
        decreases infos@.len() - i,
    {
        out.push(infos[i].pid);
        assert(pids_of(infos@.take(i + 1)) =~= pids_of(infos@.take(i as int)).push(infos@[i as int].pid));
        i = i + 1;
    }
    assert(infos@.take(infos@.len() as int) =~= infos@);
    out
}

impl KillTree {
    #[verifier::type_invariant]
    spec fn wf(self) -> bool {
        phase_ok(self.target, self.phase)
    }

    /// The target of the kill.
    pub closed spec fn target(&self) -> KillTarget {
        self.target
    }

    /// The current phase.
    pub closed spec fn phase(&self) -> KillPhase {
        self.phase
    }

    /// Begins killing the tree of `target`: first, its identity is looked up.
    pub fn start(target: KillTarget) -> (r: (KillTree, KillAction))
        ensures
            r.0.target() == target,
            r.0.phase() is Revalidate,
            r.1 == (KillAction::QueryIdentity { pid: target.pid }),
    {
        let pid = target.pid;
        (KillTree { target, phase: KillPhase::Revalidate }, KillAction::QueryIdentity { pid })
    }

    /// Whether the kill is over.
    pub fn is_done(&self) -> (done: bool)
        ensures
            done == (self.phase() is Done),
    {
        match self.phase {
            KillPhase::Done => true,
            _ => false,
        }
    }

    /// Whether `event` answers the last action (see [`answers`]); a process
    /// list must also describe a finite tree, which
    /// [`tree_walk_ends_within`](super::descendants::tree_walk_ends_within)
    /// checks.
    pub fn accepts(&self, event: &KillEvent) -> (ok: bool)
        ensures
            ok == answers(self.phase(), *event),
    {
        match (&self.phase, event) {
            (KillPhase::Revalidate, KillEvent::Identities(_)) => true,
            (KillPhase::CheckOwner, KillEvent::Listeners { .. }) => true,
            (KillPhase::ListTree, KillEvent::Processes(_)) => true,
            (KillPhase::Signal { .. }, KillEvent::SignalSent(_)) => true,
            (KillPhase::Wait { .. }, KillEvent::Alive { .. }) => true,
            (KillPhase::Pause { .. }, KillEvent::Slept) => true,
            (KillPhase::VerifyRelease, KillEvent::Listeners { .. }) => true,
            (KillPhase::PauseRelease, KillEvent::Slept) => true,
            _ => false,
        }
    }

    /// Takes the result of the last action and returns the next action.
    pub fn step(&mut self, event: KillEvent) -> (action: KillAction)
        requires
            expects(old(self).target(), old(self).phase(), event),
        ensures
            final(self).target() == old(self).target(),
            phase_ok(old(self).target(), old(self).phase()),
            phase_ok(final(self).target(), final(self).phase()),
            kill_step(old(self).target(), old(self).phase(), event, final(self).phase(), action),
    {
        proof {
            use_type_invariant(&*self);
        }
        let mut phase = KillPhase::Done;
        std::mem::swap(&mut phase, &mut self.phase);
        match phase {
            KillPhase::Revalidate => match event {
                KillEvent::Identities(Err(e)) => KillAction::Finish(Err(e)),
                KillEvent::Identities(Ok(infos)) => {
                    if infos.len() == 0 {
                        return KillAction::Finish(Err(ProcessError::NotFound(self.target.pid)));
                    }
                    let live = &infos[infos.len() - 1];
                    if !identity_matches_exec(live, &self.target) {
                        return KillAction::Finish(Err(ProcessError::IdentityMismatch { pid: self.target.pid }));
                    }
                    match self.target.expected_port {
                        Some(_) => {
                            self.phase = KillPhase::CheckOwner;
                            KillAction::ScanPorts { start_clock: false }
                        },
                        None => {
                            self.phase = KillPhase::ListTree;
                            KillAction::ListProcesses
                        },
                    }
                },
                _ => KillAction::Sleep,
            },
            KillPhase::CheckOwner => match event {
                KillEvent::Listeners { result: Err(msg), .. } => KillAction::Finish(
                    Err(ProcessError::PortVerification(msg)),
                ),
                KillEvent::Listeners { result: Ok(ls), .. } => {
                    let port = self.target.expected_port.unwrap();
                    if port_owned_by(&ls, port, self.target.pid) {
                        self.phase = KillPhase::ListTree;
                        KillAction::ListProcesses
                    } else {
                        KillAction::Finish(Err(ProcessError::PortOwnerMismatch { pid: self.target.pid, port }))
                    }
                },
                _ => KillAction::Sleep,
            },
            KillPhase::ListTree => match event {
                KillEvent::Processes(Err(e)) => KillAction::Finish(Err(e)),
                KillEvent::Processes(Ok(ps)) => {
                    let pid = self.target.pid;
                    let below = descendants_of(pid, ps.as_slice());
                    let mut tree: Vec<u32> = Vec::new();
                    tree.push(pid);
                    let mut k: usize = 0;
                    while k < below.len()
                        invariant
                            k <= below@.len(),
                            tree@ == seq![pid] + below@.take(k as int),
                        decreases below@.len() - k,
                    {
                        tree.push(below[k]);
                        assert(below@.take(k + 1) =~= below@.take(k as int).push(below@[k as int]));
                        k = k + 1;
                    }
                    assert(below@.take(below@.len() as int) =~= below@);
                    self.phase = KillPhase::Signal { pids: tree, next: 0, signal: ProcessSignal::Terminate };
                    KillAction::Signal { pid, signal: ProcessSignal::Terminate }
                },
                _ => KillAction::Sleep,
            },
            KillPhase::Signal { pids, next, signal } => match event {
                KillEvent::SignalSent(Err(e)) => KillAction::Finish(Err(e)),
                KillEvent::SignalSent(Ok(false)) => KillAction::Finish(
                    Err(ProcessError::SignalFailed { pid: pids[next], signal }),
                ),
                KillEvent::SignalSent(Ok(true)) => {
                    assert(next < pids@.len());
                    if next < pids.len() - 1 {
                        let pid = pids[next + 1];
                        self.phase = KillPhase::Signal { pids, next: next + 1, signal };
                        KillAction::Signal { pid, signal }
                    } else {
                        let check = copy_pids(&pids);
                        self.phase = KillPhase::Wait { pids, signal };
                        KillAction::CheckAlive { pids: check, start_clock: true }
                    }
                },
                _ => KillAction::Sleep,
            },
            KillPhase::Wait { pids, signal } => match event {
                KillEvent::Alive { result: Err(e), .. } => KillAction::Finish(Err(e)),
                KillEvent::Alive { result: Ok(infos), deadline_passed } => {
                    let live = live_pids(&infos);
                    if live.len() == 0 {
                        match self.target.expected_port {
                            Some(_) => {
                                self.phase = KillPhase::VerifyRelease;
                                KillAction::ScanPorts { start_clock: true }
                            },
                            None => KillAction::Finish(Ok(())),
                        }
                    } else if deadline_passed {
                        match signal {
                            ProcessSignal::Terminate => {
                                let first = live[0];
                                self.phase = KillPhase::Signal { pids: live, next: 0, signal: ProcessSignal::Kill };
                                KillAction::Signal { pid: first, signal: ProcessSignal::Kill }
                            },
                            ProcessSignal::Kill => KillAction::Finish(Err(ProcessError::StillRunning(live))),
                        }
                    } else {
                        self.phase = KillPhase::Pause { pids, signal };
                        KillAction::Sleep
                    }
                },
                _ => KillAction::Sleep,
            },
            KillPhase::Pause { pids, signal } => {
                let check = copy_pids(&pids);
                self.phase = KillPhase::Wait { pids, signal };
                KillAction::CheckAlive { pids: check, start_clock: false }
            },
            KillPhase::VerifyRelease => match event {
                KillEvent::Listeners { result: Err(msg), .. } => KillAction::Finish(
                    Err(ProcessError::PortVerification(msg)),
                ),
                KillEvent::Listeners { result: Ok(ls), deadline_passed } => {
                    let port = self.target.expected_port.unwrap();
                    if !port_listening(&ls, port) {
                        KillAction::Finish(Ok(()))
                    } else if deadline_passed {
                        KillAction::Finish(Err(ProcessError::PortStillListening(port)))
                    } else {
                        self.phase = KillPhase::PauseRelease;
                        KillAction::Sleep
                    }
                },
                _ => KillAction::Sleep,
            },
            KillPhase::PauseRelease => {
                self.phase = KillPhase::VerifyRelease;
                KillAction::ScanPorts { start_clock: false }
            },
            KillPhase::Done => KillAction::Sleep,
        }
    }
}

/// Law: no signal is ever requested before the target was revalidated: the
/// steps from the identity lookup and the ownership check only ever lead to
/// another check, the process list, or the end.
pub proof fn law_no_signal_before_revalidation(
    target: KillTarget,
    phase: KillPhase,
    event: KillEvent,
    next: KillPhase,
    action: KillAction,
)
    requires
        phase is Revalidate || phase is CheckOwner,
        kill_step(target, phase, event, next, action),
    ensures
        !(action is Signal),
        next is Done || next is CheckOwner || next is ListTree,
{
}

/// Law: SIGKILL is only requested for processes that survived the grace
/// period after SIGTERM (or while working through that list).
pub proof fn law_escalation_and_success(
    target: KillTarget,
    phase: KillPhase,
    event: KillEvent,
    next: KillPhase,
    action: KillAction,
)
    requires
        kill_step(target, phase, event, next, action),
    ensures
        (action matches KillAction::Signal { signal: ProcessSignal::Kill, .. }) ==> (
        (phase matches KillPhase::Wait { signal: ProcessSignal::Terminate, .. } && event matches KillEvent::Alive {
            result: Ok(_),
            deadline_passed: true,
        }) || phase matches KillPhase::Signal { signal: ProcessSignal::Kill, .. }),
{
}

/// Law: the kill succeeds only once the processes are gone and, when a port
/// was expected, the port is free.
pub proof fn law_success_needs_release(
    target: KillTarget,
    phase: KillPhase,
    event: KillEvent,
    next: KillPhase,
    action: KillAction,
)
    requires
        phase_ok(target, phase),
        kill_step(target, phase, event, next, action),
    ensures
        action == KillAction::Finish(Ok(())) ==> (match target.expected_port {
            Some(port) => phase is VerifyRelease && (event matches KillEvent::Listeners { result: Ok(ls), .. }
                && !port_in_use(ls@, port)),
            None => phase is Wait && (event matches KillEvent::Alive { result: Ok(infos), .. } && infos@.len()
                == 0),
        }),
{
    if action == KillAction::Finish(Ok(())) {
        match phase {
            KillPhase::Wait { pids, signal } => {
                if let KillEvent::Alive { result: Ok(infos), deadline_passed } = event {
                    assert(pids_of(infos@).len() == infos@.len());
                }
            },
            _ => {},
        }
    }
}

/// The signals an action sends: one for `Signal`, none otherwise.
pub open spec fn sent_by(action: KillAction) -> Seq<(u32, ProcessSignal)> {
    match action {
        KillAction::Signal { pid, signal } => seq![(pid, signal)],
        _ => Seq::empty(),
    }
}

/// `signal` sent to each of `pids`, in order.
pub open spec fn signals(pids: Seq<u32>, signal: ProcessSignal) -> Seq<(u32, ProcessSignal)> {
    pids.map_values(|p: u32| (p, signal))
}

/// Every pid of `pids` is in `tree`.
pub open spec fn within(pids: Seq<u32>, tree: Seq<u32>) -> bool {
    forall|k: int| 0 <= k < pids.len() ==> tree.contains(#[trigger] pids[k])
}

/// `sent` is SIGTERM to the first `j` pids of `tree`, in order, followed by
/// SIGKILL to the pids `ks` of `tree`, only once all of `tree` got SIGTERM.
pub open spec fn ordered_as(sent: Seq<(u32, ProcessSignal)>, tree: Seq<u32>, j: int, ks: Seq<u32>) -> bool {
    &&& 0 <= j <= tree.len()
    &&& within(ks, tree)
    &&& ks.len() > 0 ==> j == tree.len()
    &&& sent == signals(tree.take(j), ProcessSignal::Terminate) + signals(ks, ProcessSignal::Kill)
}

/// The signals of a kill so far are in order for the tree `tree`.
pub open spec fn signal_log(sent: Seq<(u32, ProcessSignal)>, tree: Seq<u32>) -> bool {
    exists|j: int, ks: Seq<u32>| #[trigger] ordered_as(sent, tree, j, ks)
}

/// What a kill of the tree `tree` has sent by the time it reaches `phase`.
pub open spec fn kill_history(phase: KillPhase, sent: Seq<(u32, ProcessSignal)>, tree: Seq<u32>) -> bool {
    match phase {
        KillPhase::Revalidate | KillPhase::CheckOwner | KillPhase::ListTree => sent.len() == 0,
        KillPhase::Signal { pids, next, signal } => match signal {
            ProcessSignal::Terminate => pids@ == tree && next < tree.len() && sent == signals(
                tree.take(next + 1),
                ProcessSignal::Terminate,
            ),
            ProcessSignal::Kill => next < pids@.len() && within(pids@, tree) && sent == signals(
                tree,
                ProcessSignal::Terminate,
            ) + signals(pids@.take(next + 1), ProcessSignal::Kill),
        },
        KillPhase::Wait { pids, signal } | KillPhase::Pause { pids, signal } => match signal {
            ProcessSignal::Terminate => pids@ == tree && tree.len() > 0 && sent == signals(
                tree,
                ProcessSignal::Terminate,
            ),
            ProcessSignal::Kill => pids@.len() > 0 && within(pids@, tree) && sent == signals(
                tree,
                ProcessSignal::Terminate,
            ) + signals(pids@, ProcessSignal::Kill),
        },
        KillPhase::VerifyRelease | KillPhase::PauseRelease | KillPhase::Done => signal_log(sent, tree),
    }
}

/// The tree a kill works on after a step: the target and its descendants
/// in the process list, once that list arrives.
pub open spec fn tree_after(target: KillTarget, phase: KillPhase, event: KillEvent, tree: Seq<u32>) -> Seq<u32> {
    match (phase, event) {
        (KillPhase::ListTree, KillEvent::Processes(Ok(ps))) => seq![target.pid] + descendants(ps@, target.pid),
        _ => tree,
    }
}

/// The alive check answered only about the pids it asked for.
pub open spec fn alive_within_asked(phase: KillPhase, event: KillEvent) -> bool {
    match (phase, event) {
        (KillPhase::Wait { pids, .. }, KillEvent::Alive { result: Ok(infos), .. }) => within(
            pids_of(infos@),
            pids@,
        ),
        _ => true,
    }
}

proof fn lemma_signals_take_push(pids: Seq<u32>, i: int, signal: ProcessSignal)
    requires
        0 <= i < pids.len(),
    ensures
        signals(pids.take(i + 1), signal) == signals(pids.take(i), signal).push((pids[i], signal)),
{
    assert(signals(pids.take(i + 1), signal) =~= signals(pids.take(i), signal).push((pids[i], signal)));
}

proof fn lemma_within_trans(a: Seq<u32>, b: Seq<u32>, c: Seq<u32>)
    requires
        within(a, b),
        within(b, c),
    ensures
        within(a, c),
{
    assert forall|k: int| 0 <= k < a.len() implies c.contains(#[trigger] a[k]) by {
        let n = choose|n: int| 0 <= n < b.len() && b[n] == a[k];
        assert(c.contains(b[n]));
    }
}

proof fn lemma_within_take(a: Seq<u32>, n: int, c: Seq<u32>)
    requires
        within(a, c),
        0 <= n <= a.len(),
    ensures
        within(a.take(n), c),
{
    assert forall|k: int| 0 <= k < a.take(n).len() implies c.contains(#[trigger] a.take(n)[k]) by {
        assert(a.take(n)[k] == a[k]);
    }
}

/// Law: over a whole kill, the signals go only to the tree of the target
/// found at kill time, in order: SIGTERM to a prefix of the tree (the
/// target first), and SIGKILL only after every process of the tree got
/// SIGTERM and only to processes of the tree. No signal is sent before the
/// target was revalidated (and its port checked), so a kill that stops on
/// revalidation has sent none. `sent` is what was sent before the step;
/// a kill starts in `Revalidate` having sent nothing. The alive checks are
/// taken to report only pids they were asked about.
pub proof fn law_kill_signals_follow_the_tree(
    target: KillTarget,
    phase: KillPhase,
    event: KillEvent,
    next: KillPhase,
    action: KillAction,
    sent: Seq<(u32, ProcessSignal)>,
    tree: Seq<u32>,
)
    requires
        kill_history(phase, sent, tree),
        kill_step(target, phase, event, next, action),
        alive_within_asked(phase, event),
    ensures
        kill_history(next, sent + sent_by(action), tree_after(target, phase, event, tree)),
        signal_log(sent + sent_by(action), tree_after(target, phase, event, tree)),
        !(phase is ListTree) ==> tree_after(target, phase, event, tree) == tree,
        (phase is Revalidate || phase is CheckOwner) ==> sent + sent_by(action) == Seq::<(u32, ProcessSignal)>::empty(),
{
    let sent2 = sent + sent_by(action);
    let tree2 = tree_after(target, phase, event, tree);
    let none = Seq::<u32>::empty();
    assert(signals(none, ProcessSignal::Kill) =~= Seq::<(u32, ProcessSignal)>::empty());
    assert(within(none, tree2));
    match phase {
        KillPhase::Revalidate | KillPhase::CheckOwner => {
            assert(sent2 =~= Seq::<(u32, ProcessSignal)>::empty());
            assert(tree2.take(0) =~= none);
            assert(ordered_as(sent2, tree2, 0, none));
        },
        KillPhase::ListTree => {
            match event {
                KillEvent::Processes(Ok(ps)) => {
                    assert(tree2[0] == target.pid);
                    assert(tree2.take(0) =~= none);
                    lemma_signals_take_push(tree2, 0, ProcessSignal::Terminate);
                    assert(sent2 =~= signals(tree2.take(1), ProcessSignal::Terminate));
                    assert(sent2 =~= signals(tree2.take(1), ProcessSignal::Terminate) + signals(none, ProcessSignal::Kill));
                    assert(ordered_as(sent2, tree2, 1, none));
                },
                _ => {
                    assert(sent2 =~= Seq::<(u32, ProcessSignal)>::empty());
                    assert(tree2.take(0) =~= none);
                    assert(ordered_as(sent2, tree2, 0, none));
                },
            }
        },
        KillPhase::Signal { pids, next: i, signal } => {
            match signal {
                ProcessSignal::Terminate => {
                    match event {
                        KillEvent::SignalSent(Ok(true)) => {
                            if i + 1 < pids@.len() {
                                lemma_signals_take_push(tree, i + 1, ProcessSignal::Terminate);
                                assert(sent2 =~= signals(tree.take(i + 2), ProcessSignal::Terminate));
                                assert(sent2 =~= signals(tree.take(i + 2), ProcessSignal::Terminate) + signals(none, ProcessSignal::Kill));
                                assert(ordered_as(sent2, tree, i + 2, none));
                            } else {
                                assert(sent2 =~= sent);
                                assert(tree.take(i + 1) =~= tree);
                                assert(sent2 =~= signals(tree, ProcessSignal::Terminate) + signals(none, ProcessSignal::Kill));
                                assert(ordered_as(sent2, tree, tree.len() as int, none));
                            }
                        },
                        _ => {
                            assert(sent2 =~= sent);
                            assert(sent2 =~= signals(tree.take(i + 1), ProcessSignal::Terminate) + signals(none, ProcessSignal::Kill));
                            assert(ordered_as(sent2, tree, i + 1, none));
                        },
                    }
                },
                ProcessSignal::Kill => {
                    assert(tree.take(tree.len() as int) =~= tree);
                    match event {
                        KillEvent::SignalSent(Ok(true)) => {
                            if i + 1 < pids@.len() {
                                lemma_signals_take_push(pids@, i + 1, ProcessSignal::Kill);
                                assert(sent2 =~= signals(tree, ProcessSignal::Terminate) + signals(pids@.take(i + 2), ProcessSignal::Kill));
                                lemma_within_take(pids@, i + 2, tree);
                                assert(ordered_as(sent2, tree, tree.len() as int, pids@.take(i + 2)));
                            } else {
                                assert(pids@.take(i + 1) =~= pids@);
                                assert(sent2 =~= sent);
                                assert(ordered_as(sent2, tree, tree.len() as int, pids@));
                            }
                        },
                        _ => {
                            assert(sent2 =~= sent);
                            lemma_within_take(pids@, i + 1, tree);
                            assert(ordered_as(sent2, tree, tree.len() as int, pids@.take(i + 1)));
                        },
                    }
                },
            }
        },
        KillPhase::Wait { pids, signal } => {
            assert(tree.take(tree.len() as int) =~= tree);
            match event {
                KillEvent::Alive { result: Ok(infos), deadline_passed } => {
                    let live = pids_of(infos@);
                    if live.len() > 0 && deadline_passed && signal == ProcessSignal::Terminate {
                        lemma_within_trans(live, pids@, tree);
                        assert(live.take(0) =~= none);
                        lemma_signals_take_push(live, 0, ProcessSignal::Kill);
                        assert(sent2 =~= signals(tree, ProcessSignal::Terminate) + signals(live.take(1), ProcessSignal::Kill));
                        lemma_within_take(live, 1, tree);
                        assert(ordered_as(sent2, tree, tree.len() as int, live.take(1)));
                    } else {
                        assert(sent2 =~= sent);
                        if signal == ProcessSignal::Terminate {
                            assert(sent2 =~= signals(tree, ProcessSignal::Terminate) + signals(none, ProcessSignal::Kill));
                            assert(ordered_as(sent2, tree, tree.len() as int, none));
                        } else {
                            assert(ordered_as(sent2, tree, tree.len() as int, pids@));
                        }
                    }
                },
                _ => {
                    assert(sent2 =~= sent);
                    if signal == ProcessSignal::Terminate {
                        assert(sent2 =~= signals(tree, ProcessSignal::Terminate) + signals(none, ProcessSignal::Kill));
                        assert(ordered_as(sent2, tree, tree.len() as int, none));
                    } else {
                        assert(ordered_as(sent2, tree, tree.len() as int, pids@));
                    }
                },
            }
        },
        KillPhase::Pause { pids, signal } => {
            assert(sent2 =~= sent);
            assert(tree.take(tree.len() as int) =~= tree);
            if signal == ProcessSignal::Terminate {
                assert(sent2 =~= signals(tree, ProcessSignal::Terminate) + signals(none, ProcessSignal::Kill));
                assert(ordered_as(sent2, tree, tree.len() as int, none));
            } else {
                assert(ordered_as(sent2, tree, tree.len() as int, pids@));
            }
        },
        KillPhase::VerifyRelease | KillPhase::PauseRelease => {
            assert(sent2 =~= sent);
        },
        KillPhase::Done => {},
    }
}

/// Step `i` of a kill: from `phases[i]`, on `events[i]`, the machine moves
/// to `phases[i + 1]` and asks for `actions[i + 1]`.
pub open spec fn run_step(
    target: KillTarget,
    phases: Seq<KillPhase>,
    events: Seq<KillEvent>,
    actions: Seq<KillAction>,
    i: int,
) -> bool {
    kill_step(target, phases[i], events[i], phases[i + 1], actions[i + 1]) && alive_within_asked(
        phases[i],
        events[i],
    )
}

/// A whole kill as its caller drives it: it starts in `Revalidate` asking
/// for the target's identity, and each later action is what `KillTree::step`
/// asked for on the result of the one before; the alive checks report only
/// pids they were asked about.
pub open spec fn kill_run(
    target: KillTarget,
    phases: Seq<KillPhase>,
    events: Seq<KillEvent>,
    actions: Seq<KillAction>,
) -> bool {
    &&& phases.len() == events.len() + 1
    &&& actions.len() == events.len() + 1
    &&& phases[0] is Revalidate
    &&& actions[0] == (KillAction::QueryIdentity { pid: target.pid })
    &&& forall|i: int| 0 <= i < events.len() ==> #[trigger] run_step(target, phases, events, actions, i)
}

/// The signals the first `n + 1` actions of a kill send, in order.
pub open spec fn sent_upto(actions: Seq<KillAction>, n: nat) -> Seq<(u32, ProcessSignal)>
    decreases n,
{
    if n == 0 {
        sent_by(actions[0])
    } else {
        sent_upto(actions, (n - 1) as nat) + sent_by(actions[n as int])
    }
}

/// The tree a kill works on after its first `n` steps.
pub open spec fn tree_upto(target: KillTarget, phases: Seq<KillPhase>, events: Seq<KillEvent>, n: nat) -> Seq<u32>
    decreases n,
{
    if n == 0 {
        Seq::empty()
    } else {
        tree_after(target, phases[n - 1], events[n - 1], tree_upto(target, phases, events, (n - 1) as nat))
    }
}

/// The kill has listed the processes: it is past revalidation and listing.
pub open spec fn past_listing(p: KillPhase) -> bool {
    !(p is Revalidate || p is CheckOwner || p is ListTree)
}

proof fn lemma_stays_past_listing(target: KillTarget, p: KillPhase, e: KillEvent, q: KillPhase, a: KillAction)
    requires
        kill_step(target, p, e, q, a),
    ensures
        past_listing(p) ==> past_listing(q),
        (p is ListTree && e matches KillEvent::Processes(Ok(_))) ==> past_listing(q),
{
}

/// Law: over a whole kill, at every point `n`, the signals sent so far go
/// only to the tree of the target, in order: SIGTERM to a prefix of the
/// tree, SIGKILL only after every process of the tree got SIGTERM and only
/// to processes of the tree. Once the processes were listed, the tree is
/// the target followed by its descendants in that list. A kill that stops
/// while revalidating the target or checking its port has sent nothing.
pub proof fn law_kill_run_follows_the_tree(
    target: KillTarget,
    phases: Seq<KillPhase>,
    events: Seq<KillEvent>,
    actions: Seq<KillAction>,
    n: nat,
)
    requires
        kill_run(target, phases, events, actions),
        n <= events.len(),
    ensures
        kill_history(phases[n as int], sent_upto(actions, n), tree_upto(target, phases, events, n)),
        signal_log(sent_upto(actions, n), tree_upto(target, phases, events, n)),
        forall|i: int|
            0 <= i < n && phases[i] is ListTree ==> (#[trigger] events[i] matches KillEvent::Processes(Ok(ps))
                ==> tree_upto(target, phases, events, n) == seq![target.pid] + descendants(ps@, target.pid)
                && past_listing(phases[n as int])),
        n > 0 && (phases[n - 1] is Revalidate || phases[n - 1] is CheckOwner) ==> sent_upto(actions, n).len() == 0,
    decreases n,
{
    if n == 0 {
        let none = Seq::<u32>::empty();
        assert(sent_upto(actions, 0) =~= Seq::<(u32, ProcessSignal)>::empty());
        assert(signals(none, ProcessSignal::Kill) =~= Seq::<(u32, ProcessSignal)>::empty());
        assert(none.take(0) =~= none);
        assert(ordered_as(sent_upto(actions, 0), none, 0, none));
    } else {
        let m = (n - 1) as nat;
        law_kill_run_follows_the_tree(target, phases, events, actions, m);
        assert(run_step(target, phases, events, actions, m as int));
        law_kill_signals_follow_the_tree(
            target,
            phases[m as int],
            events[m as int],
            phases[n as int],
            actions[n as int],
            sent_upto(actions, m),
            tree_upto(target, phases, events, m),
        );
        lemma_stays_past_listing(target, phases[m as int], events[m as int], phases[n as int], actions[n as int]);
        assert forall|i: int|
            0 <= i < n && phases[i] is ListTree implies (#[trigger] events[i] matches KillEvent::Processes(Ok(ps))
                ==> tree_upto(target, phases, events, n) == seq![target.pid] + descendants(ps@, target.pid)
                && past_listing(phases[n as int])) by {
        }
    }
}

/// Law: after the identity lookup, the kill goes on only when the live
/// process (the last one reported) has both the target's start time and
/// its executable; a pid reused by another process (a different start
/// time, or a different executable) ends the kill with `IdentityMismatch`
/// for the target's pid, before any signal.
pub proof fn law_revalidation_checks_identity(
    target: KillTarget,
    event: KillEvent,
    next: KillPhase,
    action: KillAction,
)
    requires
        kill_step(target, KillPhase::Revalidate, event, next, action),
        event matches KillEvent::Identities(Ok(infos)) && infos@.len() > 0,
    ensures
        ({
            let live = event->Identities_0->Ok_0@.last();
            &&& (live.start_time != target.start_time || opt_text(live.executable) != opt_text(target.executable))
                ==> (next is Done && action == KillAction::Finish(
                Err(ProcessError::IdentityMismatch { pid: target.pid }),
            ))
            &&& (live.start_time == target.start_time && opt_text(live.executable) == opt_text(target.executable))
                ==> !(action is Finish) && !(action is Signal)
        }),
{
}

} // verus!
