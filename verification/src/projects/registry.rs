//! The registry of tasks that Portus started.
//!
//! Each run has a random run id, an origin (a project task or a quick run),
//! the command and folder it was launched with, and its process group. Each
//! poll reconciles every run into a status. A run that has exited keeps its
//! final status and output for a retention window, so the user sees why it
//! stopped; starting the same task again drops that retained entry.
//!
//! The process handles themselves stay with the caller, keyed by run id: the
//! registry records whether the caller still holds one (`has_process`), and
//! the caller hands in what the handles report (exit states, output).
use vstd::prelude::*;
use vstd::string::*;

use super::lifecycle::{classify, is_final, lifecycle_of, ExitState, Lifecycle};
use crate::ids::{is_v4_uuid_text, new_uuid};
use crate::logs::ansi::{LogBatch, LogLine};
use crate::logs::render::{sanitize_chunk, sanitize_html};

verus! {

/// How long a finished run stays visible, in milliseconds.
pub const TERMINAL_STATUS_RETENTION_MS: u64 = 60_000;

/// How a run was started.
#[derive(Clone, Debug, PartialEq, Eq)]
pub struct LaunchSpec {
    pub command: String,
    pub cwd: String,
}

/// Where a run came from.
#[derive(Clone, Debug, PartialEq, Eq)]
pub enum ManagedOrigin {
    Project { project_id: String, task_id: String },
    QuickRun,
}

/// The status of a run, as one poll reports it.
#[derive(Clone, Debug, PartialEq, Eq)]
pub struct ManagedStatus {
    pub run_id: String,
    pub origin: ManagedOrigin,
    pub launch_spec: LaunchSpec,
    pub pid: u32,
    pub lifecycle: Lifecycle,
    pub recent_output: Vec<String>,
}

/// One run.
pub struct ManagedProcess {
    pub run_id: String,
    pub origin: ManagedOrigin,
    pub launch_spec: LaunchSpec,
    pub pgid: u32,
    pub started_at_ms: u64,
    /// Whether the caller still holds the run's process handle.
    pub has_process: bool,
    pub terminal_since_ms: Option<u64>,
    pub terminal_lifecycle: Option<Lifecycle>,
    pub terminal_output: Vec<String>,
}

/// What to do for a log subscription.
pub enum LogSubscription {
    /// No run has this id.
    Unknown,
    /// The run is live: subscribe to its process.
    Live,
    /// The run has exited: send this replay of its last output.
    Replay(LogBatch),
    /// The run has neither a process nor a final status.
    Unavailable,
}

/// A run has a final status.
pub open spec fn is_terminal(m: ManagedProcess) -> bool {
    m.terminal_lifecycle == Some(Lifecycle::Exited) || m.terminal_lifecycle == Some(Lifecycle::Crashed)
}

/// A run's final fields agree: a final status is an exit or a crash, comes
/// with the time it was seen, and the process handle is given up by then.
pub open spec fn entry_wf(m: ManagedProcess) -> bool {
    match m.terminal_lifecycle {
        Some(l) => is_final(l) && !m.has_process && m.terminal_since_ms is Some,
        None => m.terminal_since_ms is None,
    }
}

/// A run belongs to task `task_id` of project `project_id`.
pub open spec fn of_task(origin: ManagedOrigin, project_id: Seq<char>, task_id: Seq<char>) -> bool {
    match origin {
        ManagedOrigin::Project { project_id: p, task_id: t } => p@ == project_id && t@ == task_id,
        ManagedOrigin::QuickRun => false,
    }
}

/// The runs that survive a restart of a task: all but the task's retained
/// final entries.
pub open spec fn purge_task(es: Seq<ManagedProcess>, project_id: Seq<char>, task_id: Seq<char>) -> Seq<ManagedProcess>
    decreases es.len(),
{
    if es.len() == 0 {
        es
    } else {
        let rest = purge_task(es.drop_last(), project_id, task_id);
        let m = es.last();
        if of_task(m.origin, project_id, task_id) && m.terminal_lifecycle is Some {
            rest
        } else {
            rest.push(m)
        }
    }
}

/// The first run with this id that has no final status.
pub open spec fn active_index(es: Seq<ManagedProcess>, run_id: Seq<char>) -> Option<int> {
    if exists|i: int| 0 <= i < es.len() && (#[trigger] es[i]).run_id@ == run_id && !is_terminal(es[i]) {
        Some(
            choose|i: int|
                0 <= i < es.len() && (#[trigger] es[i]).run_id@ == run_id && !is_terminal(es[i]) && forall|j: int|
                    0 <= j < i ==> !((#[trigger] es[j]).run_id@ == run_id && !is_terminal(es[j])),
        )
    } else {
        None
    }
}

/// The first run with this id.
pub open spec fn run_index(es: Seq<ManagedProcess>, run_id: Seq<char>) -> Option<int> {
    if exists|i: int| 0 <= i < es.len() && (#[trigger] es[i]).run_id@ == run_id {
        Some(
            choose|i: int|
                0 <= i < es.len() && (#[trigger] es[i]).run_id@ == run_id && forall|j: int|
                    0 <= j < i ==> (#[trigger] es[j]).run_id@ != run_id,
        )
    } else {
        None
    }
}

/// The process groups of runs without a final status, in order.
pub open spec fn live_pgids(es: Seq<ManagedProcess>) -> Seq<u32>
    decreases es.len(),
{
    if es.len() == 0 {
        Seq::empty()
    } else {
        let rest = live_pgids(es.drop_last());
        if es.last().terminal_lifecycle is None {
            rest.push(es.last().pgid)
        } else {
            rest
        }
    }
}

/// Some listener belongs to process group `pgid`.
pub open spec fn holds_port(listener_groups: Seq<Option<u32>>, pgid: u32) -> bool {
    exists|i: int| 0 <= i < listener_groups.len() && listener_groups[i] == Some(pgid)
}

/// Time elapsed from `from` to `now`, zero when the clock reads earlier.
pub open spec fn elapsed(from: u64, now: u64) -> u64 {
    if now >= from { (now - from) as u64 } else { 0 }
}

/// The lifecycle a poll reports for a run: its final status if it has one,
/// otherwise the classification of its exit state.
pub open spec fn poll_lifecycle(m: ManagedProcess, grace_ms: u64, exit: ExitState, holds: bool, now_ms: u64) -> Lifecycle {
    match m.terminal_lifecycle {
        Some(l) => l,
        None => lifecycle_of(elapsed(m.started_at_ms, now_ms), grace_ms, exit, holds),
    }
}

/// `after` is `before` once a poll saw lifecycle `l`: a run reaching a final
/// lifecycle records it, the time, and its last output (when the caller held
/// its process), and gives up its process.
pub open spec fn entry_after_poll(
    before: ManagedProcess,
    after: ManagedProcess,
    l: Lifecycle,
    output: Seq<Seq<char>>,
    now_ms: u64,
) -> bool {
    &&& after.run_id@ == before.run_id@
    &&& after.origin == before.origin
    &&& after.launch_spec == before.launch_spec
    &&& after.pgid == before.pgid
    &&& after.started_at_ms == before.started_at_ms
    &&& if before.terminal_lifecycle is None && is_final(l) {
        &&& after.has_process == false
        &&& after.terminal_since_ms == Some(now_ms)
        &&& after.terminal_lifecycle == Some(l)
        &&& after.terminal_output.deep_view() == (if before.has_process {
            output
        } else {
            Seq::empty()
        })
    } else {
        &&& after.has_process == before.has_process
        &&& after.terminal_since_ms == before.terminal_since_ms
        &&& after.terminal_lifecycle == before.terminal_lifecycle
        &&& after.terminal_output.deep_view() == before.terminal_output.deep_view()
    }
}

/// The status a poll reports for a run in state `m` (after the poll).
pub open spec fn status_matches(s: ManagedStatus, m: ManagedProcess, l: Lifecycle, output: Seq<Seq<char>>) -> bool {
    &&& s.run_id@ == m.run_id@
    &&& s.origin == m.origin
    &&& s.launch_spec == m.launch_spec
    &&& s.pid == m.pgid
    &&& s.lifecycle == l
    &&& s.recent_output.deep_view() == (if m.has_process {
        output
    } else {
        m.terminal_output.deep_view()
    })
}

/// A run is still shown at `now_ms`.
pub open spec fn retained(m: ManagedProcess, now_ms: u64) -> bool {
    match m.terminal_since_ms {
        Some(since) => elapsed(since, now_ms) < TERMINAL_STATUS_RETENTION_MS,
        None => true,
    }
}

/// The runs that are still shown.
pub open spec fn retain_recent(es: Seq<ManagedProcess>, now_ms: u64) -> Seq<ManagedProcess>
    decreases es.len(),
{
    if es.len() == 0 {
        es
    } else {
        let rest = retain_recent(es.drop_last(), now_ms);
        if retained(es.last(), now_ms) {
            rest.push(es.last())
        } else {
            rest
        }
    }
}

/// Entry `i` of one poll: the run before the poll, the run after it, and
/// the status reported for it.
pub open spec fn polled_at(
    before: Seq<ManagedProcess>,
    after: Seq<ManagedProcess>,
    statuses: Seq<ManagedStatus>,
    grace_ms: u64,
    exits: Seq<ExitState>,
    listener_groups: Seq<Option<u32>>,
    outputs: Seq<Seq<Seq<char>>>,
    now_ms: u64,
    i: int,
) -> bool {
    let l = poll_lifecycle(before[i], grace_ms, exits[i], holds_port(listener_groups, before[i].pgid), now_ms);
    &&& entry_after_poll(before[i], after[i], l, outputs[i], now_ms)
    &&& status_matches(statuses[i], after[i], l, outputs[i])
}

/// One poll over all runs: run `i` is classified from `exits[i]`, the
/// listeners' process groups and the clock, and reports `outputs[i]` while
/// its process is held.
pub open spec fn polled(
    before: Seq<ManagedProcess>,
    after: Seq<ManagedProcess>,
    statuses: Seq<ManagedStatus>,
    grace_ms: u64,
    exits: Seq<ExitState>,
    listener_groups: Seq<Option<u32>>,
    outputs: Seq<Seq<Seq<char>>>,
    now_ms: u64,
) -> bool {
    &&& after.len() == before.len()
    &&& statuses.len() == before.len()
    &&& forall|i: int|
        0 <= i < before.len() ==> #[trigger] polled_at(
            before,
            after,
            statuses,
            grace_ms,
            exits,
            listener_groups,
            outputs,
            now_ms,
            i,
        )
}

/// The registry of started runs.
pub struct ProjectRegistry {
    grace_ms: u64,
    managed: Vec<ManagedProcess>,
}

fn copy_origin(o: &ManagedOrigin) -> (r: ManagedOrigin)
    ensures
        r == *o,
{
    match o {
        ManagedOrigin::Project { project_id, task_id } => ManagedOrigin::Project {
            project_id: project_id.clone(),
            task_id: task_id.clone(),
        },
        ManagedOrigin::QuickRun => ManagedOrigin::QuickRun,
    }
}

fn copy_spec(s: &LaunchSpec) -> (r: LaunchSpec)
    ensures
        r == *s,
{
    LaunchSpec { command: s.command.clone(), cwd: s.cwd.clone() }
}

fn copy_lines(v: &Vec<String>) -> (r: Vec<String>)
    ensures
        r.deep_view() == v.deep_view(),
{
    let mut out: Vec<String> = Vec::new();
    let mut i: usize = 0;
    while i < v.len()
        invariant
            i <= v@.len(),
            out.deep_view() =~= v.deep_view().take(i as int),
        decreases v@.len() - i,
    {
        let ghost prev = out.deep_view();
        out.push(v[i].clone());
        proof {
            assert(out.deep_view() =~= prev.push(v@[i as int]@));
            assert(v.deep_view().take(i + 1) =~= v.deep_view().take(i as int).push(v@[i as int]@));
        }
        i = i + 1;
    }
    assert(v.deep_view().take(v@.len() as int) =~= v.deep_view());
    out
}

fn origin_is_task(origin: &ManagedOrigin, project_id: &String, task_id: &String) -> (r: bool)
    ensures
        r == of_task(*origin, project_id@, task_id@),
{
    match origin {
        ManagedOrigin::Project { project_id: p, task_id: t } => *p == *project_id && *t == *task_id,
        ManagedOrigin::QuickRun => false,
    }
}

fn terminal(m: &ManagedProcess) -> (r: bool)
    ensures
        r == is_terminal(*m),
{
    match m.terminal_lifecycle {
        Some(Lifecycle::Exited) => true,
        Some(Lifecycle::Crashed) => true,
        _ => false,
    }
}

/// An empty, well-formed entry: no id, no command, group 0, no process and
/// no final status (a placeholder while an entry is moved out of a list).
fn blank_entry() -> (m: ManagedProcess)
    ensures
        m.run_id@.len() == 0,
        m.origin == ManagedOrigin::QuickRun,
        m.launch_spec.command@.len() == 0,
        m.launch_spec.cwd@.len() == 0,
        m.pgid == 0,
        m.started_at_ms == 0,
        !m.has_process,
        m.terminal_since_ms is None,
        m.terminal_lifecycle is None,
        m.terminal_output@.len() == 0,
        entry_wf(m),
{
    ManagedProcess {
        run_id: String::new(),
        origin: ManagedOrigin::QuickRun,
        launch_spec: LaunchSpec { command: String::new(), cwd: String::new() },
        pgid: 0,
        started_at_ms: 0,
        has_process: false,
        terminal_since_ms: None,
        terminal_lifecycle: None,
        terminal_output: Vec::new(),
    }
}

fn group_holds_port(listener_groups: &Vec<Option<u32>>, pgid: u32) -> (r: bool)
    ensures
        r == holds_port(listener_groups@, pgid),
{
    let mut k: usize = 0;
    while k < listener_groups.len()
        invariant
            k <= listener_groups@.len(),
            forall|j: int| 0 <= j < k ==> listener_groups@[j] != Some(pgid),
        decreases listener_groups@.len() - k,
    {
        if listener_groups[k] == Some(pgid) {
            return true;
        }
        k = k + 1;
    }
    false
}

fn elapsed_ms(from: u64, now: u64) -> (r: u64)
    ensures
        r == elapsed(from, now),
{
    if now >= from {
        now - from
    } else {
        0
    }
}

/// Polls one run: classifies it, records a final status when it reaches
/// one, and reports its status.
fn poll_entry(
    m: ManagedProcess,
    grace_ms: u64,
    exit: ExitState,
    holds: bool,
    output: &Vec<String>,
    now_ms: u64,
) -> (r: (ManagedProcess, ManagedStatus))
    ensures
        entry_after_poll(m, r.0, poll_lifecycle(m, grace_ms, exit, holds, now_ms), output.deep_view(), now_ms),
        status_matches(r.1, r.0, poll_lifecycle(m, grace_ms, exit, holds, now_ms), output.deep_view()),
{
    let l = match m.terminal_lifecycle {
        Some(l) => l,
        None => classify(elapsed_ms(m.started_at_ms, now_ms), grace_ms, exit, holds),
    };
    let mut m = m;
    if m.terminal_lifecycle.is_none() && (l == Lifecycle::Exited || l == Lifecycle::Crashed) {
        let kept = if m.has_process {
            copy_lines(output)
        } else {
            let empty: Vec<String> = Vec::new();
            assert(empty.deep_view() =~= Seq::<Seq<char>>::empty());
            empty
        };
        m.terminal_since_ms = Some(now_ms);
        m.terminal_lifecycle = Some(l);
        m.terminal_output = kept;
        m.has_process = false;
    }
    let recent = if m.has_process {
        copy_lines(output)
    } else {
        copy_lines(&m.terminal_output)
    };
    let status = ManagedStatus {
        run_id: m.run_id.clone(),
        origin: copy_origin(&m.origin),
        launch_spec: copy_spec(&m.launch_spec),
        pid: m.pgid,
        lifecycle: l,
        recent_output: recent,
    };
    (m, status)
}

fn still_shown(m: &ManagedProcess, now_ms: u64) -> (r: bool)
    ensures
        r == retained(*m, now_ms),
{
    match m.terminal_since_ms {
        Some(since) => elapsed_ms(since, now_ms) < TERMINAL_STATUS_RETENTION_MS,
        None => true,
    }
}

impl ProjectRegistry {
    #[verifier::type_invariant]
    spec fn inv(self) -> bool {
        forall|i: int| 0 <= i < self.managed@.len() ==> entry_wf(#[trigger] self.managed@[i])
    }

    /// The runs, oldest first.
    pub closed spec fn entries(&self) -> Seq<ManagedProcess> {
        self.managed@
    }

    /// The grace window for binding a port, in milliseconds.
    pub closed spec fn grace(&self) -> u64 {
        self.grace_ms
    }

    /// An empty registry whose tasks may take `grace_ms` to bind a port.
    pub fn new(grace_ms: u64) -> (r: Self)
        ensures
            r.grace() == grace_ms,
            r.entries() == Seq::<ManagedProcess>::empty(),
    {
        ProjectRegistry { grace_ms, managed: Vec::new() }
    }

    /// Drops the retained final entries of a task (a restart must not be
    /// shadowed by the previous run's frozen status).
    fn purge_terminal(&mut self, project_id: &String, task_id: &String)
        ensures
            final(self).grace() == old(self).grace(),
            final(self).entries() == purge_task(old(self).entries(), project_id@, task_id@),
    {
        proof {
            use_type_invariant(&*self);
        }
        let ghost es = self.managed@;
        let mut old_runs: Vec<ManagedProcess> = Vec::new();
        std::mem::swap(&mut old_runs, &mut self.managed);
        let n = old_runs.len();
        let mut kept: Vec<ManagedProcess> = Vec::new();
        let mut i: usize = 0;
        while i < n
            invariant
                n == es.len(),
                old_runs@.len() == n,
                i <= n,
                forall|j: int| i <= j < n ==> #[trigger] old_runs@[j] == es[j],
                kept@ == purge_task(es.take(i as int), project_id@, task_id@),
                forall|j: int| 0 <= j < n ==> entry_wf(#[trigger] es[j]),
                forall|j: int| 0 <= j < kept@.len() ==> entry_wf(#[trigger] kept@[j]),
            decreases n - i,
        {
            let mut m = blank_entry();
            old_runs.set_and_swap(i, &mut m);
            proof {
                assert(m == es[i as int]);
                assert(es.take(i + 1).drop_last() =~= es.take(i as int));
                assert(es.take(i + 1).last() == m);
            }
            if !(origin_is_task(&m.origin, project_id, task_id) && m.terminal_lifecycle.is_some()) {
                kept.push(m);
            }
            i = i + 1;
        }
        assert(es.take(n as int) =~= es);
        self.managed = kept;
    }

    /// Records a run of a project task started with process group `pgid` at
    /// `now_ms`, after dropping the task's retained final entries. Returns
    /// the new run id.
    pub fn insert(
        &mut self,
        project_id: String,
        task_id: String,
        launch_spec: LaunchSpec,
        pgid: u32,
        now_ms: u64,
    ) -> (run_id: String)
        ensures
            final(self).grace() == old(self).grace(),
            final(self).entries().drop_last() == purge_task(old(self).entries(), project_id@, task_id@),
            final(self).entries().len() > 0,
            ({
                let m = final(self).entries().last();
                &&& m.run_id@ == run_id@
                &&& is_v4_uuid_text(run_id@)
                &&& m.origin == (ManagedOrigin::Project { project_id, task_id })
                &&& m.launch_spec == launch_spec
                &&& m.pgid == pgid
                &&& m.started_at_ms == now_ms
                &&& m.has_process
                &&& m.terminal_since_ms is None
                &&& m.terminal_lifecycle is None
                &&& m.terminal_output@.len() == 0
            }),
    {
        self.purge_terminal(&project_id, &task_id);
        let run_id = new_uuid();
        proof {
            use_type_invariant(&*self);
        }
        let ghost before = self.managed@;
        let mut runs: Vec<ManagedProcess> = Vec::new();
        std::mem::swap(&mut runs, &mut self.managed);
        runs.push(ManagedProcess {
            run_id: run_id.clone(),
            origin: ManagedOrigin::Project { project_id, task_id },
            launch_spec,
            pgid,
            started_at_ms: now_ms,
            has_process: true,
            terminal_since_ms: None,
            terminal_lifecycle: None,
            terminal_output: Vec::new(),
        });
        assert(runs@.drop_last() =~= before);
        self.managed = runs;
        run_id
    }

    /// Records a quick run (a command typed by the user) started with
    /// process group `pgid` at `now_ms`. Returns the new run id.
    pub fn insert_quick_run(&mut self, launch_spec: LaunchSpec, pgid: u32, now_ms: u64) -> (run_id: String)
        ensures
            final(self).grace() == old(self).grace(),
            final(self).entries().drop_last() == old(self).entries(),
            final(self).entries().len() > 0,
            ({
                let m = final(self).entries().last();
                &&& m.run_id@ == run_id@
                &&& is_v4_uuid_text(run_id@)
                &&& m.origin == ManagedOrigin::QuickRun
                &&& m.launch_spec == launch_spec
                &&& m.pgid == pgid
                &&& m.started_at_ms == now_ms
                &&& m.has_process
                &&& m.terminal_since_ms is None
                &&& m.terminal_lifecycle is None
                &&& m.terminal_output@.len() == 0
            }),
    {
        let run_id = new_uuid();
        proof {
            use_type_invariant(&*self);
        }
        let ghost before = self.managed@;
        let mut runs: Vec<ManagedProcess> = Vec::new();
        std::mem::swap(&mut runs, &mut self.managed);
        runs.push(ManagedProcess {
            run_id: run_id.clone(),
            origin: ManagedOrigin::QuickRun,
            launch_spec,
            pgid,
            started_at_ms: now_ms,
            has_process: true,
            terminal_since_ms: None,
            terminal_lifecycle: None,
            terminal_output: Vec::new(),
        });
        assert(runs@.drop_last() =~= before);
        self.managed = runs;
        run_id
    }

    fn active_run(&self, run_id: &str) -> (r: Option<usize>)
        ensures
            match r {
                Some(i) => i < self.entries().len() && active_index(self.entries(), run_id@) == Some(i as int),
                None => active_index(self.entries(), run_id@) is None,
            },
    {
        let ghost es = self.managed@;
        let target = String::from_str(run_id);
        let mut i: usize = 0;
        while i < self.managed.len()
            invariant
                i <= es.len(),
                es == self.managed@,
                target@ == run_id@,
                forall|j: int| 0 <= j < i ==> !((#[trigger] es[j]).run_id@ == run_id@ && !is_terminal(es[j])),
            decreases es.len() - i,
        {
            if self.managed[i].run_id == target && !terminal(&self.managed[i]) {
                proof {
                    let w = i as int;
                    assert(es[w].run_id@ == run_id@ && !is_terminal(es[w]));
                    let c = choose|c: int|
                        0 <= c < es.len() && (#[trigger] es[c]).run_id@ == run_id@ && !is_terminal(es[c]) && forall|j: int|
                            0 <= j < c ==> !((#[trigger] es[j]).run_id@ == run_id@ && !is_terminal(es[j]));
                    if c < w {
                    } else if c > w {
                        assert(!(es[w].run_id@ == run_id@ && !is_terminal(es[w])));
                    }
                }
                return Some(i);
            }
            i = i + 1;
        }
        None
    }

    fn find_run(&self, run_id: &str) -> (r: Option<usize>)
        ensures
            match r {
                Some(i) => i < self.entries().len() && run_index(self.entries(), run_id@) == Some(i as int),
                None => run_index(self.entries(), run_id@) is None,
            },
    {
        let ghost es = self.managed@;
        let target = String::from_str(run_id);
        let mut i: usize = 0;
        while i < self.managed.len()
            invariant
                i <= es.len(),
                es == self.managed@,
                target@ == run_id@,
                forall|j: int| 0 <= j < i ==> (#[trigger] es[j]).run_id@ != run_id@,
            decreases es.len() - i,
        {
            if self.managed[i].run_id == target {
                proof {
                    let w = i as int;
                    assert(es[w].run_id@ == run_id@);
                    let c = choose|c: int|
                        0 <= c < es.len() && (#[trigger] es[c]).run_id@ == run_id@ && forall|j: int|
                            0 <= j < c ==> (#[trigger] es[j]).run_id@ != run_id@;
                    if c > w {
                        assert(es[w].run_id@ != run_id@);
                    }
                }
                return Some(i);
            }
            i = i + 1;
        }
        None
    }

    /// Polls every run at `now_ms`. For run `i`, `exits[i]` is what its
    /// process (or, without one, its process group) reports and
    /// `outputs[i]` its recent output; `listener_groups` holds the process
    /// group of each listening process. Returns one status per run, in
    /// order, and then forgets runs that ended longer ago than the
    /// retention window.
    pub fn reconcile(
        &mut self,
        exits: &Vec<ExitState>,
        listener_groups: &Vec<Option<u32>>,
        outputs: &Vec<Vec<String>>,
        now_ms: u64,
    ) -> (statuses: Vec<ManagedStatus>)
        requires
            exits@.len() == old(self).entries().len(),
            outputs@.len() == old(self).entries().len(),
        ensures
            final(self).grace() == old(self).grace(),
            forall|i: int| 0 <= i < old(self).entries().len() ==> entry_wf(#[trigger] old(self).entries()[i]),
            forall|i: int| 0 <= i < final(self).entries().len() ==> entry_wf(#[trigger] final(self).entries()[i]),
            statuses@.len() == old(self).entries().len(),
            exists|after: Seq<ManagedProcess>|
                {
                    &&& polled(
                        old(self).entries(),
                        after,
                        statuses@,
                        old(self).grace(),
                        exits@,
                        listener_groups@,
                        outputs.deep_view(),
                        now_ms,
                    )
                    &&& final(self).entries() == retain_recent(after, now_ms)
                },
    {
        proof {
            use_type_invariant(&*self);
        }
        let ghost es = self.managed@;
        let ghost outs = outputs.deep_view();
        let grace_ms = self.grace_ms;
        let mut old_runs: Vec<ManagedProcess> = Vec::new();
        std::mem::swap(&mut old_runs, &mut self.managed);
        let n = old_runs.len();
        let mut kept: Vec<ManagedProcess> = Vec::new();
        let mut statuses: Vec<ManagedStatus> = Vec::new();
        let ghost mut after: Seq<ManagedProcess> = Seq::empty();
        let mut i: usize = 0;
        while i < n
            invariant
                n == es.len(),
                exits@.len() == n,
                outputs@.len() == n,
                outs == outputs.deep_view(),
                grace_ms == self.grace_ms,
                old_runs@.len() == n,
                i <= n,
                forall|j: int| i <= j < n ==> #[trigger] old_runs@[j] == es[j],
                after.len() == i,
                statuses@.len() == i,
                forall|j: int|
                    0 <= j < i ==> #[trigger] polled_at(
                        es,
                        after,
                        statuses@,
                        grace_ms,
                        exits@,
                        listener_groups@,
                        outs,
                        now_ms,
                        j,
                    ),
                kept@ == retain_recent(after, now_ms),
                forall|j: int| 0 <= j < n ==> entry_wf(#[trigger] es[j]),
                forall|j: int| 0 <= j < kept@.len() ==> entry_wf(#[trigger] kept@[j]),
            decreases n - i,
        {
            let mut m = blank_entry();
            old_runs.set_and_swap(i, &mut m);
            assert(m == es[i as int]);
            let holds = group_holds_port(listener_groups, m.pgid);
            let (entry, status) = poll_entry(m, grace_ms, exits[i], holds, &outputs[i], now_ms);
            let ghost prev_after = after;
            let ghost prev_statuses = statuses@;
            proof {
                after = after.push(entry);
            }
            statuses.push(status);
            proof {
                assert(outs[i as int] == outputs@[i as int].deep_view());
                assert(after.drop_last() =~= prev_after);
                assert forall|j: int| 0 <= j < i + 1 implies #[trigger] polled_at(
                    es,
                    after,
                    statuses@,
                    grace_ms,
                    exits@,
                    listener_groups@,
                    outs,
                    now_ms,
                    j,
                ) by {
                    if j < i {
                        assert(polled_at(es, prev_after, prev_statuses, grace_ms, exits@, listener_groups@, outs, now_ms, j));
                        assert(after[j] == prev_after[j]);
                        assert(statuses@[j] == prev_statuses[j]);
                    }
                }
            }
            if still_shown(&entry, now_ms) {
                kept.push(entry);
            }
            i = i + 1;
        }
        self.managed = kept;
        assert(polled(es, after, statuses@, grace_ms, exits@, listener_groups@, outs, now_ms));
        statuses
    }

    /// The run id and process group of every run, oldest first (for the
    /// caller to gather what each run's process reports before a poll).
    pub fn runs(&self) -> (r: Vec<(String, u32)>)
        ensures
            r@.len() == self.entries().len(),
            forall|i: int|
                0 <= i < r@.len() ==> (#[trigger] r@[i]).0@ == self.entries()[i].run_id@ && r@[i].1
                    == self.entries()[i].pgid,
    {
        let mut out: Vec<(String, u32)> = Vec::new();
        let mut i: usize = 0;
        while i < self.managed.len()
            invariant
                i <= self.managed@.len(),
                out@.len() == i,
                forall|k: int|
                    0 <= k < i ==> (#[trigger] out@[k]).0@ == self.managed@[k].run_id@ && out@[k].1
                        == self.managed@[k].pgid,
            decreases self.managed@.len() - i,
        {
            out.push((self.managed[i].run_id.clone(), self.managed[i].pgid));
            i = i + 1;
        }
        out
    }

    /// How many runs the registry holds.
    pub fn len(&self) -> (n: usize)
        ensures
            n == self.entries().len(),
    {
        self.managed.len()
    }

    /// Whether a run with this id is active (has no final status).
    pub fn has_active_run(&self, run_id: &str) -> (r: bool)
        ensures
            r == (active_index(self.entries(), run_id@) is Some),
    {
        self.active_run(run_id).is_some()
    }

    /// The id of the first active run of a project task, if any.
    pub fn active_project_run_id(&self, project_id: &str, task_id: &str) -> (r: Option<String>)
        ensures
            match r {
                Some(id) => exists|i: int|
                    0 <= i < self.entries().len() && of_task((#[trigger] self.entries()[i]).origin, project_id@, task_id@)
                        && !is_terminal(self.entries()[i]) && id@ == self.entries()[i].run_id@ && forall|j: int|
                        0 <= j < i ==> !(of_task((#[trigger] self.entries()[j]).origin, project_id@, task_id@)
                            && !is_terminal(self.entries()[j])),
                None => forall|i: int|
                    0 <= i < self.entries().len() ==> !(of_task((#[trigger] self.entries()[i]).origin, project_id@, task_id@)
                        && !is_terminal(self.entries()[i])),
            },
    {
        let ghost es = self.managed@;
        let p = String::from_str(project_id);
        let t = String::from_str(task_id);
        let mut i: usize = 0;
        while i < self.managed.len()
            invariant
                i <= es.len(),
                es == self.managed@,
                p@ == project_id@,
                t@ == task_id@,
                forall|j: int| 0 <= j < i ==> !(of_task((#[trigger] es[j]).origin, project_id@, task_id@) && !is_terminal(es[j])),
            decreases es.len() - i,
        {
            if origin_is_task(&self.managed[i].origin, &p, &t) && !terminal(&self.managed[i]) {
                return Some(self.managed[i].run_id.clone());
            }
            i = i + 1;
        }
        None
    }

    /// The process groups to kill on quit: those of runs without a final
    /// status, in order.
    pub fn pgids(&self) -> (r: Vec<u32>)
        ensures
            r@ == live_pgids(self.entries()),
    {
        let ghost es = self.managed@;
        let mut out: Vec<u32> = Vec::new();
        let mut i: usize = 0;
        while i < self.managed.len()
            invariant
                i <= es.len(),
                es == self.managed@,
                out@ == live_pgids(es.take(i as int)),
            decreases es.len() - i,
        {
            proof {
                assert(es.take(i + 1).drop_last() =~= es.take(i as int));
                assert(es.take(i + 1).last() == es[i as int]);
            }
            if self.managed[i].terminal_lifecycle.is_none() {
                out.push(self.managed[i].pgid);
            }
            i = i + 1;
        }
        assert(es.take(es.len() as int) =~= es);
        out
    }

    /// Forgets every run (on quit) and returns their process groups.
    pub fn drain(&mut self) -> (r: Vec<u32>)
        ensures
            final(self).grace() == old(self).grace(),
            final(self).entries() == Seq::<ManagedProcess>::empty(),
            r@ == old(self).entries().map_values(|m: ManagedProcess| m.pgid),
    {
        let ghost es = self.managed@;
        let mut out: Vec<u32> = Vec::new();
        let mut i: usize = 0;
        while i < self.managed.len()
            invariant
                i <= es.len(),
                es == self.managed@,
                out@ == es.take(i as int).map_values(|m: ManagedProcess| m.pgid),
            decreases es.len() - i,
        {
            out.push(self.managed[i].pgid);
            assert(es.take(i + 1).map_values(|m: ManagedProcess| m.pgid) =~= es.take(i as int).map_values(
                |m: ManagedProcess| m.pgid,
            ).push(es[i as int].pgid));
            i = i + 1;
        }
        assert(es.take(es.len() as int) =~= es);
        self.managed = Vec::new();
        out
    }

    /// What a log subscription to a run gets: a live run is streamed, an
    /// exited one gets a replay of its last output rendered as HTML.
    pub fn subscribe_logs(&self, run_id: &str) -> (r: LogSubscription)
        ensures
            match run_index(self.entries(), run_id@) {
                None => r is Unknown,
                Some(i) => {
                    let m = self.entries()[i];
                    if m.has_process {
                        r is Live
                    } else if is_terminal(m) {
                        r matches LogSubscription::Replay(batch) && batch.lines.deep_view()
                            == m.terminal_output.deep_view().map_values(
                            |line: Seq<char>| sanitize_html(vstd::utf8::encode_utf8(line)),
                        )
                    } else {
                        r is Unavailable
                    }
                },
            },
    {
        match self.find_run(run_id) {
            None => LogSubscription::Unknown,
            Some(i) => {
                let m = &self.managed[i];
                if m.has_process {
                    LogSubscription::Live
                } else if terminal(m) {
                    let ghost src = m.terminal_output.deep_view();
                    let mut lines: Vec<LogLine> = Vec::new();
                    let mut k: usize = 0;
                    while k < m.terminal_output.len()
                        invariant
                            k <= src.len(),
                            src == m.terminal_output.deep_view(),
                            lines.deep_view() =~= src.take(k as int).map_values(
                                |line: Seq<char>| sanitize_html(vstd::utf8::encode_utf8(line)),
                            ),
                        decreases src.len() - k,
                    {
                        let text = &m.terminal_output[k];
                        let html = sanitize_chunk(text.as_str().as_bytes());
                        let ghost prev = lines.deep_view();
                        lines.push(LogLine { html });
                        proof {
                            assert(src[k as int] == text@);
                            assert(lines.deep_view() =~= prev.push(html@));
                            assert(src.take(k + 1) =~= src.take(k as int).push(src[k as int]));
                        }
                        k = k + 1;
                    }
                    assert(src.take(src.len() as int) =~= src);
                    LogSubscription::Replay(LogBatch { lines })
                } else {
                    LogSubscription::Unavailable
                }
            },
        }
    }

    /// Whether an unsubscription reaches a live process: the run is active
    /// and its process is held.
    pub fn unsubscribe_logs(&self, run_id: &str) -> (r: bool)
        ensures
            r == (match active_index(self.entries(), run_id@) {
                Some(i) => self.entries()[i].has_process,
                None => false,
            }),
    {
        match self.active_run(run_id) {
            Some(i) => self.managed[i].has_process,
            None => false,
        }
    }

    /// Whether input for a run reaches a process (as for unsubscription);
    /// otherwise the input is ignored.
    pub fn send_input(&self, run_id: &str) -> (r: bool)
        ensures
            r == (match active_index(self.entries(), run_id@) {
                Some(i) => self.entries()[i].has_process,
                None => false,
            }),
    {
        self.unsubscribe_logs(run_id)
    }

    /// The process group of an active run.
    pub fn pgid_for_run(&self, run_id: &str) -> (r: Option<u32>)
        ensures
            r == (match active_index(self.entries(), run_id@) {
                Some(i) => Some(self.entries()[i].pgid),
                None => None,
            }),
    {
        match self.active_run(run_id) {
            Some(i) => Some(self.managed[i].pgid),
            None => None,
        }
    }

    /// How a run was launched, whether or not it is still active.
    pub fn launch_spec_for_run(&self, run_id: &str) -> (r: Option<LaunchSpec>)
        ensures
            r == (match run_index(self.entries(), run_id@) {
                Some(i) => Some(self.entries()[i].launch_spec),
                None => None,
            }),
    {
        match self.find_run(run_id) {
            Some(i) => Some(copy_spec(&self.managed[i].launch_spec)),
            None => None,
        }
    }
}

} // verus!

verus! {

/// Law: restarting a task keeps every other run and drops exactly the task's
/// runs that already have a final status, so no stale row of the task stays
/// beside the new run.
pub proof fn law_restart_drops_retained_rows(es: Seq<ManagedProcess>, project_id: Seq<char>, task_id: Seq<char>)
    ensures
        forall|m: ManagedProcess|
            #[trigger] purge_task(es, project_id, task_id).contains(m) <==> (es.contains(m) && !(of_task(
                m.origin,
                project_id,
                task_id,
            ) && m.terminal_lifecycle is Some)),
    decreases es.len(),
{
    if es.len() > 0 {
        let rest = es.drop_last();
        law_restart_drops_retained_rows(rest, project_id, task_id);
        assert forall|m: ManagedProcess| es.contains(m) <==> (rest.contains(m) || m == es.last()) by {
            if es.contains(m) {
                let k = choose|k: int| 0 <= k < es.len() && es[k] == m;
                if k < es.len() - 1 {
                    assert(rest[k] == m);
                }
            }
            if rest.contains(m) {
                let k = choose|k: int| 0 <= k < rest.len() && rest[k] == m;
                assert(es[k] == m);
            }
            if m == es.last() {
                assert(es[es.len() - 1] == m);
            }
        }
        let p = purge_task(rest, project_id, task_id);
        let dropped = of_task(es.last().origin, project_id, task_id) && es.last().terminal_lifecycle is Some;
        assert(purge_task(es, project_id, task_id) == (if dropped {
            p
        } else {
            p.push(es.last())
        }));
        assert forall|m: ManagedProcess| p.push(es.last()).contains(m) <==> (p.contains(m) || m == es.last()) by {
            if p.push(es.last()).contains(m) {
                let k = choose|k: int| 0 <= k < p.len() + 1 && p.push(es.last())[k] == m;
                if k < p.len() {
                    assert(p[k] == m);
                }
            }
            if p.contains(m) {
                let k = choose|k: int| 0 <= k < p.len() && p[k] == m;
                assert(p.push(es.last())[k] == m);
            }
            if m == es.last() {
                assert(p.push(es.last())[p.len() as int] == m);
            }
        }
        assert forall|m: ManagedProcess|
            #[trigger] purge_task(es, project_id, task_id).contains(m) <==> (es.contains(m) && !(of_task(
                m.origin,
                project_id,
                task_id,
            ) && m.terminal_lifecycle is Some)) by {
            assert(p.contains(m) <==> (rest.contains(m) && !(of_task(m.origin, project_id, task_id)
                && m.terminal_lifecycle is Some)));
        }
    }
}

/// Law: a run with a final status keeps it on every later poll, whatever
/// its process group now reports, and keeps the output it ended with.
pub proof fn law_final_status_is_kept(
    m: ManagedProcess,
    after: ManagedProcess,
    grace_ms: u64,
    exit: ExitState,
    holds: bool,
    output: Seq<Seq<char>>,
    now_ms: u64,
)
    requires
        m.terminal_lifecycle is Some,
        entry_after_poll(m, after, poll_lifecycle(m, grace_ms, exit, holds, now_ms), output, now_ms),
    ensures
        poll_lifecycle(m, grace_ms, exit, holds, now_ms) == m.terminal_lifecycle->0,
        after.terminal_lifecycle == m.terminal_lifecycle,
        after.terminal_since_ms == m.terminal_since_ms,
        after.terminal_output.deep_view() == m.terminal_output.deep_view(),
{
}

/// Law: a poll that sees a run's process gone records a final status for
/// it, so it is no longer active and its group is no longer killed on quit.
pub proof fn law_exit_is_recorded(
    before: Seq<ManagedProcess>,
    after: Seq<ManagedProcess>,
    statuses: Seq<ManagedStatus>,
    grace_ms: u64,
    exits: Seq<ExitState>,
    listener_groups: Seq<Option<u32>>,
    outputs: Seq<Seq<Seq<char>>>,
    now_ms: u64,
    i: int,
)
    requires
        polled(before, after, statuses, grace_ms, exits, listener_groups, outputs, now_ms),
        0 <= i < before.len(),
        entry_wf(before[i]),
        exits[i] != ExitState::Alive,
    ensures
        after[i].terminal_lifecycle is Some,
        is_final(statuses[i].lifecycle),
        is_terminal(after[i]),
{
    assert(polled_at(before, after, statuses, grace_ms, exits, listener_groups, outputs, now_ms, i));
}

/// Every run still shown after pruning was a run before it.
proof fn lemma_retained_runs_were_runs(a: Seq<ManagedProcess>, now_ms: u64)
    ensures
        forall|m: int| 0 <= m < retain_recent(a, now_ms).len() ==> a.contains(#[trigger] retain_recent(a, now_ms)[m]),
    decreases a.len(),
{
    if a.len() > 0 {
        let rest = a.drop_last();
        lemma_retained_runs_were_runs(rest, now_ms);
        let rr = retain_recent(rest, now_ms);
        let es = retain_recent(a, now_ms);
        assert forall|m: int| 0 <= m < es.len() implies a.contains(#[trigger] es[m]) by {
            if m < rr.len() {
                assert(es[m] == rr[m]);
                assert(rest.contains(rr[m]));
                let j = choose|j: int| 0 <= j < rest.len() && rest[j] == rr[m];
                assert(a[j] == rest[j]);
            } else {
                assert(es[m] == a.last());
                assert(a[a.len() - 1] == a.last());
            }
        }
    }
}

/// A run that is alone with its id and still shown is shown once, and no
/// other shown run has its id.
proof fn lemma_retained_run_is_unique(a: Seq<ManagedProcess>, now_ms: u64, i: int)
    requires
        0 <= i < a.len(),
        retained(a[i], now_ms),
        forall|j: int| 0 <= j < a.len() && j != i ==> (#[trigger] a[j]).run_id@ != a[i].run_id@,
    ensures
        exists|k: int|
            0 <= k < retain_recent(a, now_ms).len() && retain_recent(a, now_ms)[k] == a[i] && forall|m: int|
                0 <= m < retain_recent(a, now_ms).len() && m != k ==> (#[trigger] retain_recent(a, now_ms)[m]).run_id@
                    != a[i].run_id@,
    decreases a.len(),
{
    let rest = a.drop_last();
    let rr = retain_recent(rest, now_ms);
    let es = retain_recent(a, now_ms);
    let r = a[i].run_id@;
    if i == a.len() - 1 {
        lemma_retained_runs_were_runs(rest, now_ms);
        assert(es == rr.push(a[i]));
        let k = rr.len() as int;
        assert forall|m: int| 0 <= m < es.len() && m != k implies (#[trigger] es[m]).run_id@ != r by {
            assert(es[m] == rr[m]);
            assert(rest.contains(rr[m]));
            let j = choose|j: int| 0 <= j < rest.len() && rest[j] == rr[m];
            assert(a[j] == rest[j]);
        }
        assert(es[k] == a[i]);
    } else {
        assert forall|j: int| 0 <= j < rest.len() && j != i implies (#[trigger] rest[j]).run_id@ != rest[i].run_id@ by {
            assert(rest[j] == a[j]);
        }
        lemma_retained_run_is_unique(rest, now_ms, i);
        let k = choose|k: int|
            0 <= k < rr.len() && rr[k] == rest[i] && forall|m: int|
                0 <= m < rr.len() && m != k ==> (#[trigger] rr[m]).run_id@ != rest[i].run_id@;
        assert(a.last().run_id@ != r) by {
            assert(a[a.len() - 1] == a.last());
        }
        assert forall|m: int| 0 <= m < es.len() && m != k implies (#[trigger] es[m]).run_id@ != r by {
            if m < rr.len() {
                assert(es[m] == rr[m]);
            } else {
                assert(es[m] == a.last());
            }
        }
        assert(es[k] == rr[k]);
    }
}

/// Every process group killed on quit is that of a run without a final
/// status.
proof fn lemma_live_pgids_are_live(es: Seq<ManagedProcess>, p: u32)
    requires
        live_pgids(es).contains(p),
    ensures
        exists|j: int| 0 <= j < es.len() && (#[trigger] es[j]).terminal_lifecycle is None && es[j].pgid == p,
    decreases es.len(),
{
    let rest = es.drop_last();
    let lr = live_pgids(rest);
    if es.last().terminal_lifecycle is None && p == es.last().pgid {
        assert(es[es.len() - 1] == es.last());
    } else {
        if es.last().terminal_lifecycle is None {
            let n = choose|n: int| 0 <= n < lr.push(es.last().pgid).len() && lr.push(es.last().pgid)[n] == p;
            assert(lr[n] == p);
        }
        assert(lr.contains(p));
        lemma_live_pgids_are_live(rest, p);
        let j = choose|j: int| 0 <= j < rest.len() && (#[trigger] rest[j]).terminal_lifecycle is None && rest[j].pgid == p;
        assert(es[j] == rest[j]);
    }
}

/// A run with a final status that is alone with its id is not active, is
/// found by its id, and owns none of the groups killed on quit.
proof fn lemma_lone_final_run(es: Seq<ManagedProcess>, k: int)
    requires
        0 <= k < es.len(),
        es[k].terminal_lifecycle is Some,
        is_terminal(es[k]),
        forall|m: int| 0 <= m < es.len() && m != k ==> (#[trigger] es[m]).run_id@ != es[k].run_id@,
    ensures
        active_index(es, es[k].run_id@) is None,
        run_index(es, es[k].run_id@) == Some(k),
        forall|p: u32|
            #[trigger] live_pgids(es).contains(p) ==> exists|j: int|
                0 <= j < es.len() && (#[trigger] es[j]).terminal_lifecycle is None && es[j].pgid == p
                    && es[j].run_id@ != es[k].run_id@,
{
    let r = es[k].run_id@;
    assert(!exists|n: int| 0 <= n < es.len() && (#[trigger] es[n]).run_id@ == r && !is_terminal(es[n])) by {
        if exists|n: int| 0 <= n < es.len() && (#[trigger] es[n]).run_id@ == r && !is_terminal(es[n]) {
            let n = choose|n: int| 0 <= n < es.len() && (#[trigger] es[n]).run_id@ == r && !is_terminal(es[n]);
            if n != k {
                assert(es[n].run_id@ != r);
            }
        }
    }
    assert(forall|j: int| 0 <= j < k ==> (#[trigger] es[j]).run_id@ != r);
    assert(0 <= k < es.len() && (#[trigger] es[k]).run_id@ == r && forall|j: int| 0 <= j < k ==> (#[trigger] es[j]).run_id@ != r);
    let c = choose|c: int|
        0 <= c < es.len() && (#[trigger] es[c]).run_id@ == r && forall|j: int| 0 <= j < c ==> (#[trigger] es[j]).run_id@ != r;
    if c != k {
        assert(es[c].run_id@ != r);
    }
    assert forall|p: u32| #[trigger] live_pgids(es).contains(p) implies exists|j: int|
        0 <= j < es.len() && (#[trigger] es[j]).terminal_lifecycle is None && es[j].pgid == p && es[j].run_id@ != r by {
        lemma_live_pgids_are_live(es, p);
        let j = choose|j: int| 0 <= j < es.len() && (#[trigger] es[j]).terminal_lifecycle is None && es[j].pgid == p;
        assert(es[j].run_id@ != r);
    }
}

/// A poll that sees a run's process gone leaves it, with its final status
/// just recorded, as the only run with its id among those still shown.
proof fn lemma_recorded_run(
    before: Seq<ManagedProcess>,
    after: Seq<ManagedProcess>,
    statuses: Seq<ManagedStatus>,
    grace_ms: u64,
    exits: Seq<ExitState>,
    listener_groups: Seq<Option<u32>>,
    outputs: Seq<Seq<Seq<char>>>,
    now_ms: u64,
    i: int,
) -> (k: int)
    requires
        polled(before, after, statuses, grace_ms, exits, listener_groups, outputs, now_ms),
        0 <= i < before.len(),
        entry_wf(before[i]),
        before[i].terminal_lifecycle is None,
        exits[i] != ExitState::Alive,
        forall|j: int| 0 <= j < before.len() && j != i ==> (#[trigger] before[j]).run_id@ != before[i].run_id@,
    ensures
        0 <= k < retain_recent(after, now_ms).len(),
        retain_recent(after, now_ms)[k] == after[i],
        forall|m: int|
            0 <= m < retain_recent(after, now_ms).len() && m != k ==> (#[trigger] retain_recent(after, now_ms)[m]).run_id@
                != before[i].run_id@,
        after[i].run_id@ == before[i].run_id@,
        after[i].launch_spec == before[i].launch_spec,
        after[i].terminal_lifecycle == Some(statuses[i].lifecycle),
        after[i].terminal_since_ms == Some(now_ms),
        is_final(statuses[i].lifecycle),
        is_terminal(after[i]),
{
    let es = retain_recent(after, now_ms);
    law_exit_is_recorded(before, after, statuses, grace_ms, exits, listener_groups, outputs, now_ms, i);
    assert(polled_at(before, after, statuses, grace_ms, exits, listener_groups, outputs, now_ms, i));
    assert(retained(after[i], now_ms));
    assert forall|j: int| 0 <= j < after.len() && j != i implies (#[trigger] after[j]).run_id@ != after[i].run_id@ by {
        assert(polled_at(before, after, statuses, grace_ms, exits, listener_groups, outputs, now_ms, j));
    }
    lemma_retained_run_is_unique(after, now_ms, i);
    choose|k: int|
        0 <= k < es.len() && es[k] == after[i] && forall|m: int|
            0 <= m < es.len() && m != k ==> (#[trigger] es[m]).run_id@ != after[i].run_id@
}

/// Law: once a poll sees a run's process gone and records its final status,
/// the registry still shows the run: `has_active_run` and `pgid_for_run`
/// answer no for it, every group `pgids` lists belongs to another run that
/// is still active, `launch_spec_for_run` still finds how it was launched,
/// and every later poll within the retention window reports the same final
/// status, whatever its process group then reports. Run ids are taken to be
/// distinct, as fresh run ids are.
pub proof fn law_finished_run_stays_visible(
    before: Seq<ManagedProcess>,
    after: Seq<ManagedProcess>,
    statuses: Seq<ManagedStatus>,
    grace_ms: u64,
    exits: Seq<ExitState>,
    listener_groups: Seq<Option<u32>>,
    outputs: Seq<Seq<Seq<char>>>,
    now_ms: u64,
    i: int,
)
    requires
        polled(before, after, statuses, grace_ms, exits, listener_groups, outputs, now_ms),
        0 <= i < before.len(),
        entry_wf(before[i]),
        before[i].terminal_lifecycle is None,
        exits[i] != ExitState::Alive,
        forall|j: int| 0 <= j < before.len() && j != i ==> (#[trigger] before[j]).run_id@ != before[i].run_id@,
    ensures
        ({
            let es = retain_recent(after, now_ms);
            let r = before[i].run_id@;
            &&& is_final(statuses[i].lifecycle)
            &&& active_index(es, r) is None
            &&& run_index(es, r) matches Some(k) && 0 <= k < es.len() && es[k].launch_spec == before[i].launch_spec && es[k]
                .terminal_lifecycle == Some(statuses[i].lifecycle) && (forall|later: u64|
                elapsed(now_ms, later) < TERMINAL_STATUS_RETENTION_MS ==> #[trigger] retained(es[k], later)) && (forall|
                g: u64,
                e: ExitState,
                h: bool,
                later: u64,
            | #[trigger] poll_lifecycle(es[k], g, e, h, later) == statuses[i].lifecycle)
            &&& forall|p: u32|
                #[trigger] live_pgids(es).contains(p) ==> exists|j: int|
                    0 <= j < es.len() && (#[trigger] es[j]).terminal_lifecycle is None && es[j].pgid == p
                        && es[j].run_id@ != r
        }),
{
    let k = lemma_recorded_run(before, after, statuses, grace_ms, exits, listener_groups, outputs, now_ms, i);
    lemma_lone_final_run(retain_recent(after, now_ms), k);
}

/// Law: the next poll, within the retention window, again reports a run
/// whose final status a poll recorded, with that status, whatever its
/// process group reports then; afterwards the run is still not active, is
/// still found with its launch spec, and owns none of the groups killed on
/// quit. Run ids are taken to be distinct, as fresh run ids are.
pub proof fn law_final_status_survives_the_next_poll(
    before: Seq<ManagedProcess>,
    after1: Seq<ManagedProcess>,
    statuses1: Seq<ManagedStatus>,
    grace_ms: u64,
    exits1: Seq<ExitState>,
    groups1: Seq<Option<u32>>,
    outputs1: Seq<Seq<Seq<char>>>,
    t1: u64,
    i: int,
    after2: Seq<ManagedProcess>,
    statuses2: Seq<ManagedStatus>,
    exits2: Seq<ExitState>,
    groups2: Seq<Option<u32>>,
    outputs2: Seq<Seq<Seq<char>>>,
    t2: u64,
)
    requires
        polled(before, after1, statuses1, grace_ms, exits1, groups1, outputs1, t1),
        0 <= i < before.len(),
        entry_wf(before[i]),
        before[i].terminal_lifecycle is None,
        exits1[i] != ExitState::Alive,
        forall|j: int| 0 <= j < before.len() && j != i ==> (#[trigger] before[j]).run_id@ != before[i].run_id@,
        polled(retain_recent(after1, t1), after2, statuses2, grace_ms, exits2, groups2, outputs2, t2),
        elapsed(t1, t2) < TERMINAL_STATUS_RETENTION_MS,
    ensures
        ({
            let es = retain_recent(after2, t2);
            let r = before[i].run_id@;
            &&& exists|k: int|
                0 <= k < statuses2.len() && (#[trigger] statuses2[k]).run_id@ == r && statuses2[k].lifecycle
                    == statuses1[i].lifecycle
            &&& active_index(es, r) is None
            &&& run_index(es, r) matches Some(k) && 0 <= k < es.len() && es[k].launch_spec == before[i].launch_spec
                && es[k].terminal_lifecycle == Some(statuses1[i].lifecycle)
            &&& forall|p: u32|
                #[trigger] live_pgids(es).contains(p) ==> exists|j: int|
                    0 <= j < es.len() && (#[trigger] es[j]).terminal_lifecycle is None && es[j].pgid == p
                        && es[j].run_id@ != r
        }),
{
    let es1 = retain_recent(after1, t1);
    let r = before[i].run_id@;
    let k1 = lemma_recorded_run(before, after1, statuses1, grace_ms, exits1, groups1, outputs1, t1, i);
    assert(polled_at(es1, after2, statuses2, grace_ms, exits2, groups2, outputs2, t2, k1));
    assert(statuses2[k1].run_id@ == r);
    assert(retained(after2[k1], t2));
    assert forall|j: int| 0 <= j < after2.len() && j != k1 implies (#[trigger] after2[j]).run_id@ != after2[k1].run_id@ by {
        assert(polled_at(es1, after2, statuses2, grace_ms, exits2, groups2, outputs2, t2, j));
    }
    lemma_retained_run_is_unique(after2, t2, k1);
    let es = retain_recent(after2, t2);
    let k2 = choose|k: int|
        0 <= k < es.len() && es[k] == after2[k1] && forall|m: int|
            0 <= m < es.len() && m != k ==> (#[trigger] es[m]).run_id@ != after2[k1].run_id@;
    lemma_lone_final_run(es, k2);
}

} // verus!
