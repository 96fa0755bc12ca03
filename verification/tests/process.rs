use std::collections::VecDeque;

use portus::ports::{IpAddress, ListenerProcess, PortListener, Protocol, SocketAddress};
use portus::process::controller::{
    KillAction, KillEvent, KillTarget, ProcessController, ProcessError, ProcessIdentity,
    ProcessSignal,
};
use portus::process::descendants::tree_walk_ends_within;
use portus::process::{descendants_of, ProcessSnapshot};

const ROOT_PID: u32 = 100;
const CHILD_PID: u32 = 101;
const GRANDCHILD_PID: u32 = 102;
const PORT: u16 = 3000;

/// A scripted machine: processes that stay alive according to a script of
/// polls, and port scans that follow a script too.
struct FakeWorld {
    snapshots: Vec<ProcessSnapshot>,
    alive_polls: VecDeque<Vec<u32>>,
    last_alive: Vec<u32>,
    identities: Vec<ProcessIdentity>,
    rejected_signals: Vec<(u32, ProcessSignal)>,
    signals: Vec<(u32, ProcessSignal)>,
    scans: VecDeque<Vec<PortListener>>,
    last_scan: Vec<PortListener>,
}

impl FakeWorld {
    fn new(snapshots: Vec<ProcessSnapshot>, alive_polls: Vec<Vec<u32>>, scans: Vec<Vec<PortListener>>) -> Self {
        let last_alive = alive_polls.first().cloned().unwrap_or_default();
        let last_scan = scans.first().cloned().unwrap_or_default();
        FakeWorld {
            snapshots,
            alive_polls: alive_polls.into(),
            last_alive,
            identities: Vec::new(),
            rejected_signals: Vec::new(),
            signals: Vec::new(),
            scans: scans.into(),
            last_scan,
        }
    }

    fn info_for_pids(&mut self, pids: &[u32]) -> Vec<ProcessIdentity> {
        if let Some(alive) = self.alive_polls.pop_front() {
            self.last_alive = alive;
        }
        pids.iter()
            .copied()
            .filter(|pid| self.last_alive.contains(pid))
            .map(|pid| {
                self.identities
                    .iter()
                    .find(|identity| identity.pid == pid)
                    .cloned()
                    .unwrap_or(ProcessIdentity {
                        pid,
                        executable: Some("/fake".to_string()),
                        start_time: 1,
                    })
            })
            .collect()
    }

    fn scan(&mut self) -> Vec<PortListener> {
        if let Some(listeners) = self.scans.pop_front() {
            self.last_scan = listeners;
        }
        self.last_scan.clone()
    }

    fn signal(&mut self, pid: u32, signal: ProcessSignal) -> bool {
        self.signals.push((pid, signal));
        !self.rejected_signals.contains(&(pid, signal))
    }
}

/// Drives a kill with a zero grace period: every deadline has passed by
/// the time a result comes in.
fn kill(world: &mut FakeWorld, target: KillTarget) -> Result<(), ProcessError> {
    let controller = ProcessController::new((), (), 0, 0);
    let (mut tree, mut action) = controller.kill_tree(target.clone());
    loop {
        let event = match action {
            KillAction::QueryIdentity { pid } => KillEvent::Identities(Ok(world.info_for_pids(&[pid]))),
            KillAction::ScanPorts { .. } => KillEvent::Listeners { result: Ok(world.scan()), deadline_passed: true },
            KillAction::ListProcesses => {
                assert!(tree_walk_ends_within(&world.snapshots, target.pid, world.snapshots.len() as u64 + 1));
                KillEvent::Processes(Ok(world.snapshots.clone()))
            }
            KillAction::Signal { pid, signal } => KillEvent::SignalSent(Ok(world.signal(pid, signal))),
            KillAction::CheckAlive { pids, .. } => KillEvent::Alive {
                result: Ok(world.info_for_pids(&pids)),
                deadline_passed: true,
            },
            KillAction::Sleep => KillEvent::Slept,
            KillAction::Finish(result) => return result,
        };
        assert!(tree.accepts(&event));
        action = tree.step(event);
    }
}

fn snapshot(pid: u32, parent_pid: Option<u32>) -> ProcessSnapshot {
    ProcessSnapshot { pid, parent_pid }
}

fn target(expected_port: Option<u16>) -> KillTarget {
    KillTarget {
        pid: ROOT_PID,
        executable: Some("/fake".to_string()),
        start_time: 1,
        expected_port,
    }
}

fn listener(port: u16, pid: u32) -> PortListener {
    PortListener {
        protocol: Protocol::Tcp,
        socket: SocketAddress { ip: IpAddress::V4([127, 0, 0, 1]), port },
        process: ListenerProcess {
            pid,
            name: "test".to_string(),
            path: "/test".to_string(),
        },
    }
}

fn released_port() -> Vec<Vec<PortListener>> {
    vec![vec![]]
}

fn listening_port_for(port: u16, pid: u32) -> Vec<Vec<PortListener>> {
    vec![vec![listener(port, pid)]]
}

fn port_released_after_precheck(port: u16) -> Vec<Vec<PortListener>> {
    vec![vec![listener(port, ROOT_PID)], vec![]]
}

#[test]
fn descendant_builder_returns_the_complete_subtree() {
    let processes = vec![
        snapshot(10, None),
        snapshot(11, Some(10)),
        snapshot(12, Some(11)),
        snapshot(20, None),
    ];

    assert_eq!(descendants_of(10, &processes), vec![11, 12]);
}

#[test]
fn descendants_come_breadth_first_with_siblings_ascending() {
    let processes = vec![
        snapshot(1, None),
        snapshot(7, Some(1)),
        snapshot(3, Some(1)),
        snapshot(9, Some(3)),
        snapshot(5, Some(7)),
        snapshot(4, Some(3)),
    ];

    assert_eq!(descendants_of(1, &processes), vec![3, 7, 4, 9, 5]);
    assert!(descendants_of(5, &processes).is_empty());
}

#[test]
fn a_parent_cycle_is_detected_before_walking() {
    let processes = vec![snapshot(1, Some(2)), snapshot(2, Some(1))];
    assert!(!tree_walk_ends_within(&processes, 1, 100));
    assert!(tree_walk_ends_within(&[snapshot(1, None), snapshot(2, Some(1))], 1, 3));
}

#[test]
fn kill_tree_returns_not_found_when_root_is_missing() {
    let mut world = FakeWorld::new(vec![], vec![vec![]], port_released_after_precheck(PORT));

    let error = kill(&mut world, target(Some(PORT))).unwrap_err();

    assert!(matches!(error, ProcessError::NotFound(ROOT_PID)));
}

#[test]
fn kill_tree_returns_identity_mismatch_when_pid_was_reused() {
    let mut world = FakeWorld::new(vec![snapshot(ROOT_PID, None)], vec![vec![ROOT_PID]], port_released_after_precheck(PORT));
    world.identities.push(ProcessIdentity {
        pid: ROOT_PID,
        executable: Some("/new-bin".to_string()),
        start_time: 2,
    });

    let error = kill(&mut world, target(None)).unwrap_err();

    assert!(matches!(error, ProcessError::IdentityMismatch { pid: ROOT_PID }));
}

#[test]
fn kill_tree_returns_port_owner_mismatch_when_pid_no_longer_holds_port() {
    let mut world = FakeWorld::new(vec![snapshot(ROOT_PID, None)], vec![vec![ROOT_PID]], listening_port_for(PORT, CHILD_PID));

    let error = kill(&mut world, target(Some(PORT))).unwrap_err();

    assert!(matches!(error, ProcessError::PortOwnerMismatch { pid: ROOT_PID, port: PORT }));
    assert!(world.signals.is_empty());
}

#[test]
fn kill_tree_returns_signal_failed_when_signal_is_rejected() {
    let mut world = FakeWorld::new(vec![snapshot(ROOT_PID, None)], vec![vec![ROOT_PID]], released_port());
    world.rejected_signals.push((ROOT_PID, ProcessSignal::Terminate));

    let error = kill(&mut world, target(None)).unwrap_err();

    assert!(matches!(
        error,
        ProcessError::SignalFailed { pid: ROOT_PID, signal: ProcessSignal::Terminate }
    ));
}

#[test]
fn kill_tree_terminates_the_whole_tree_during_grace() {
    let snapshots = vec![
        snapshot(ROOT_PID, None),
        snapshot(CHILD_PID, Some(ROOT_PID)),
        snapshot(GRANDCHILD_PID, Some(CHILD_PID)),
    ];
    let mut world = FakeWorld::new(
        snapshots,
        vec![vec![ROOT_PID, CHILD_PID, GRANDCHILD_PID], vec![]],
        port_released_after_precheck(PORT),
    );

    kill(&mut world, target(Some(PORT))).unwrap();

    assert_eq!(
        world.signals,
        vec![
            (ROOT_PID, ProcessSignal::Terminate),
            (CHILD_PID, ProcessSignal::Terminate),
            (GRANDCHILD_PID, ProcessSignal::Terminate),
        ]
    );
}

#[test]
fn kill_tree_escalates_surviving_processes_to_kill() {
    let mut world = FakeWorld::new(
        vec![snapshot(ROOT_PID, None)],
        vec![vec![ROOT_PID], vec![ROOT_PID], vec![]],
        released_port(),
    );

    kill(&mut world, target(None)).unwrap();

    assert_eq!(
        world.signals,
        vec![(ROOT_PID, ProcessSignal::Terminate), (ROOT_PID, ProcessSignal::Kill)]
    );
}

#[test]
fn kill_tree_returns_still_running_after_escalation() {
    let mut world = FakeWorld::new(
        vec![snapshot(ROOT_PID, None)],
        vec![vec![ROOT_PID], vec![ROOT_PID], vec![ROOT_PID]],
        released_port(),
    );

    let error = kill(&mut world, target(None)).unwrap_err();

    assert!(matches!(error, ProcessError::StillRunning(ref pids) if pids == &[ROOT_PID]));
}

#[test]
fn kill_tree_returns_port_still_listening_after_deadline() {
    let mut world = FakeWorld::new(vec![snapshot(ROOT_PID, None)], vec![vec![ROOT_PID], vec![]], listening_port_for(PORT, ROOT_PID));

    let error = kill(&mut world, target(Some(PORT))).unwrap_err();

    assert!(matches!(error, ProcessError::PortStillListening(PORT)));
}

#[test]
fn kill_tree_without_expected_port_skips_port_verification() {
    let mut world = FakeWorld::new(vec![snapshot(ROOT_PID, None)], vec![vec![ROOT_PID], vec![]], listening_port_for(PORT, ROOT_PID));

    kill(&mut world, target(None)).unwrap();
}

#[test]
fn a_wait_before_the_deadline_sleeps_and_checks_again() {
    let controller = ProcessController::new((), (), 500, 50);
    assert_eq!(controller.grace_period_ms, 500);
    assert_eq!(controller.poll_interval_ms, 50);
    let (mut tree, action) = controller.kill_tree(target(None));
    assert!(matches!(action, KillAction::QueryIdentity { pid: ROOT_PID }));

    let identity = ProcessIdentity { pid: ROOT_PID, executable: Some("/fake".to_string()), start_time: 1 };
    let action = tree.step(KillEvent::Identities(Ok(vec![identity.clone()])));
    assert!(matches!(action, KillAction::ListProcesses));
    let action = tree.step(KillEvent::Processes(Ok(vec![snapshot(ROOT_PID, None)])));
    assert!(matches!(action, KillAction::Signal { pid: ROOT_PID, signal: ProcessSignal::Terminate }));
    let action = tree.step(KillEvent::SignalSent(Ok(true)));
    assert!(matches!(action, KillAction::CheckAlive { start_clock: true, .. }));
    let action = tree.step(KillEvent::Alive { result: Ok(vec![identity.clone()]), deadline_passed: false });
    assert!(matches!(action, KillAction::Sleep));
    assert!(!tree.accepts(&KillEvent::SignalSent(Ok(true))));
    let action = tree.step(KillEvent::Slept);
    assert!(matches!(action, KillAction::CheckAlive { start_clock: false, .. }));
    let action = tree.step(KillEvent::Alive { result: Ok(vec![]), deadline_passed: false });
    assert!(matches!(action, KillAction::Finish(Ok(()))));
    assert!(tree.is_done());
}

#[test]
fn probe_errors_end_the_kill_with_that_error() {
    let controller = ProcessController::new((), (), 0, 0);
    let (mut tree, _) = controller.kill_tree(target(Some(PORT)));
    let identity = ProcessIdentity { pid: ROOT_PID, executable: Some("/fake".to_string()), start_time: 1 };
    let action = tree.step(KillEvent::Identities(Ok(vec![identity])));
    assert!(matches!(action, KillAction::ScanPorts { start_clock: false }));
    let action = tree.step(KillEvent::Listeners { result: Err("scan failed".to_string()), deadline_passed: false });
    assert!(matches!(action, KillAction::Finish(Err(ProcessError::PortVerification(ref m))) if m == "scan failed"));

    let (mut tree, _) = controller.kill_tree(target(None));
    let action = tree.step(KillEvent::Identities(Err(ProcessError::Inspect("denied".to_string()))));
    assert!(matches!(action, KillAction::Finish(Err(ProcessError::Inspect(ref m))) if m == "denied"));
}

#[test]
fn process_error_messages_match_the_display_texts() {
    assert_eq!(ProcessError::Inspect("denied".to_string()).message(), "failed to inspect processes: denied");
    assert_eq!(ProcessError::NotFound(7).message(), "process 7 is no longer running");
    assert_eq!(
        ProcessError::IdentityMismatch { pid: 12 }.message(),
        "process 12 no longer matches the selected row"
    );
    assert_eq!(
        ProcessError::PortOwnerMismatch { pid: 12, port: 8080 }.message(),
        "process 12 no longer owns port 8080"
    );
    assert_eq!(
        ProcessError::SignalFailed { pid: 3, signal: ProcessSignal::Kill }.message(),
        "failed to send Kill to process 3"
    );
    assert_eq!(
        ProcessError::StillRunning(vec![1, 22, 333]).message(),
        "processes are still running after signal escalation: [1, 22, 333]"
    );
    assert_eq!(
        ProcessError::StillRunning(vec![]).message(),
        "processes are still running after signal escalation: []"
    );
    assert_eq!(
        ProcessError::PortStillListening(3000).message(),
        "port 3000 is still listening after the process tree was killed"
    );
    assert_eq!(
        ProcessError::PortVerification("scan failed".to_string()).message(),
        "failed to verify port release: scan failed"
    );
}
