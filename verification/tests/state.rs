use portus::ports::{IpAddress, ListenerProcess, PortListener, Protocol, SocketAddress};
use portus::state::{
    isolated_section, listener_pids, PollMode, PollState, ProbeOutcome, SnapshotBuilder, ACTIVE_INTERVAL_MS,
    IDLE_INTERVAL_MS,
};

fn listener(port: u16, pid: u32) -> PortListener {
    PortListener {
        protocol: Protocol::Tcp,
        socket: SocketAddress { ip: IpAddress::V4([127, 0, 0, 1]), port },
        process: ListenerProcess {
            pid,
            name: format!("proc-{pid}"),
            path: format!("/bin/proc-{pid}"),
        },
    }
}

#[test]
fn cadence_switches_between_idle_and_active() {
    let mut state = PollState::new(2_000, 8_000);

    assert_eq!(state.mode(), PollMode::Idle);
    assert_eq!(state.current_interval(), 8_000);

    state.set_active();
    assert_eq!(state.mode(), PollMode::Active);
    assert_eq!(state.current_interval(), 2_000);

    state.set_idle();
    assert_eq!(state.mode(), PollMode::Idle);
    assert_eq!(state.current_interval(), 8_000);
}

#[test]
fn default_intervals_are_two_and_eight_seconds() {
    assert_eq!(ACTIVE_INTERVAL_MS, 2_000);
    assert_eq!(IDLE_INTERVAL_MS, 8_000);
}

#[test]
fn duplicate_listener_pids_are_resolved_once() {
    let pids = listener_pids(&vec![listener(3000, 42), listener(3001, 42)]);

    assert_eq!(pids, vec![42]);
}

#[test]
fn listener_pids_are_sorted_and_unique() {
    let pids = listener_pids(&vec![listener(1, 9), listener(2, 3), listener(3, 9), listener(4, 5), listener(5, 3)]);
    assert_eq!(pids, vec![3, 5, 9]);
    assert!(listener_pids(&vec![]).is_empty());
}

#[test]
fn panicking_process_probe_does_not_blank_ports_or_skip_emit() {
    let ports = isolated_section("port", ProbeOutcome::Done(vec![listener(3000, 42)]), Vec::new());
    let processes: portus::state::SnapshotSection<Vec<u32>> =
        isolated_section("process", ProbeOutcome::Panicked, Vec::new());

    assert_eq!(ports.data.len(), 1);
    assert!(ports.error.is_none());
    assert!(processes.data.is_empty());
    assert_eq!(processes.error.as_deref(), Some("process probe panicked"));
}

#[test]
fn panicking_port_probe_still_emits_a_snapshot() {
    let ports: portus::state::SnapshotSection<Vec<PortListener>> =
        isolated_section("port", ProbeOutcome::Panicked, Vec::new());
    let processes: portus::state::SnapshotSection<Vec<u32>> = isolated_section("process", ProbeOutcome::Done(vec![]), vec![]);

    assert!(ports.data.is_empty());
    assert_eq!(ports.error.as_deref(), Some("port probe panicked"));
    assert!(processes.error.is_none());
}

#[test]
fn a_failing_probe_reports_its_error_with_empty_data() {
    let section = isolated_section("port", ProbeOutcome::Failed("lsof missing".to_string()), vec![7u32]);
    assert_eq!(section.data, vec![7]);
    assert_eq!(section.error.as_deref(), Some("lsof missing"));
}

#[test]
fn snapshot_builder_holds_its_probes() {
    let builder = SnapshotBuilder::new("ports", 7u8);
    assert_eq!(builder.port_probe, "ports");
    assert_eq!(builder.process_probe, 7);
}
