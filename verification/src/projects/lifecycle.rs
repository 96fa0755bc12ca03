//! The lifecycle of a managed task, derived from its exit state, whether it
//! holds a listening port, and how long it has been running.
use vstd::prelude::*;

verus! {

/// What a managed task is doing.
#[derive(Clone, Copy, Debug, PartialEq, Eq, Structural)]
pub enum Lifecycle {
    Starting,
    Running,
    RunningNoPort,
    Exited,
    Crashed,
}

/// The exit signal of a spawned process.
#[derive(Clone, Copy, Debug, PartialEq, Eq, Structural)]
pub enum ExitState {
    Alive,
    Exited(i32),
    /// Terminated by a signal (no exit code), for example our own kill-on-quit.
    Signaled,
}

/// The lifecycle for an exit state: exit code 0 or a signal is a clean
/// exit, another code a crash; a live task is running once it holds a port,
/// running without a port after the grace window, and starting before it.
pub open spec fn lifecycle_of(elapsed_ms: u64, grace_ms: u64, exit: ExitState, holds_port: bool) -> Lifecycle {
    match exit {
        ExitState::Exited(code) => if code == 0 {
            Lifecycle::Exited
        } else {
            Lifecycle::Crashed
        },
        ExitState::Signaled => Lifecycle::Exited,
        ExitState::Alive => if holds_port {
            Lifecycle::Running
        } else if elapsed_ms >= grace_ms {
            Lifecycle::RunningNoPort
        } else {
            Lifecycle::Starting
        },
    }
}

/// Whether a lifecycle is final (the task has exited).
pub open spec fn is_final(l: Lifecycle) -> bool {
    l == Lifecycle::Exited || l == Lifecycle::Crashed
}

/// Classifies a task. `elapsed_ms` is the time since spawn, `grace_ms` the
/// window in which a task may still be binding its port, both in
/// milliseconds; `holds_port` tells whether any listening port is owned by
/// the task's process group.
pub fn classify(elapsed_ms: u64, grace_ms: u64, exit: ExitState, holds_port: bool) -> (l: Lifecycle)
    ensures
        l == lifecycle_of(elapsed_ms, grace_ms, exit, holds_port),
{
    match exit {
        ExitState::Exited(0) | ExitState::Signaled => Lifecycle::Exited,
        ExitState::Exited(_) => Lifecycle::Crashed,
        ExitState::Alive => {
            if holds_port {
                Lifecycle::Running
            } else if elapsed_ms >= grace_ms {
                Lifecycle::RunningNoPort
            } else {
                Lifecycle::Starting
            }
        },
    }
}

/// Law: a task that has exited is final whatever its timing and ports, and
/// a live task never is.
pub proof fn law_exit_decides_finality(elapsed_ms: u64, grace_ms: u64, exit: ExitState, holds_port: bool)
    ensures
        is_final(lifecycle_of(elapsed_ms, grace_ms, exit, holds_port)) <==> exit != ExitState::Alive,
        exit != ExitState::Alive ==> lifecycle_of(elapsed_ms, grace_ms, exit, holds_port) == lifecycle_of(
            0,
            0,
            exit,
            false,
        ),
{
}

/// Law: a live task that holds a port is running, and without one it moves
/// from starting to running-without-port exactly when the grace window ends.
pub proof fn law_grace_window(elapsed_ms: u64, grace_ms: u64)
    ensures
        lifecycle_of(elapsed_ms, grace_ms, ExitState::Alive, true) == Lifecycle::Running,
        lifecycle_of(elapsed_ms, grace_ms, ExitState::Alive, false) == (if elapsed_ms < grace_ms {
            Lifecycle::Starting
        } else {
            Lifecycle::RunningNoPort
        }),
{
}

/// Law: an exit code other than 0 is a crash, exit code 0 and a signal are a
/// clean exit, whatever the timing and the ports.
pub proof fn law_exit_codes(elapsed_ms: u64, grace_ms: u64, code: i32, holds_port: bool)
    ensures
        code != 0 ==> lifecycle_of(elapsed_ms, grace_ms, ExitState::Exited(code), holds_port) == Lifecycle::Crashed,
        lifecycle_of(elapsed_ms, grace_ms, ExitState::Exited(0), holds_port) == Lifecycle::Exited,
        lifecycle_of(elapsed_ms, grace_ms, ExitState::Signaled, holds_port) == Lifecycle::Exited,
{
}

} // verus!
