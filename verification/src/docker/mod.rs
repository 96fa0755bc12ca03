//! Docker containers as the menu shows them: what a listing of the daemon
//! gives, how it becomes a snapshot, and a scripted backend for tests.
//! Talking to the daemon is the caller's.
use vstd::prelude::*;
use vstd::string::*;

verus! {

/// A container as the daemon lists it.
#[derive(Clone, Debug, PartialEq, Eq)]
pub struct RawContainer {
    pub id: String,
    pub names: Vec<String>,
    pub image: String,
    pub state: String,
    pub status: String,
}

/// A container as the menu shows it.
#[derive(Clone, Debug, PartialEq, Eq)]
pub struct DockerContainer {
    pub id: String,
    pub names: Vec<String>,
    pub image: String,
    pub state: String,
    pub status: String,
}

/// A listed container as the menu shows it: field for field.
pub open spec fn shown_as(container: RawContainer) -> DockerContainer {
    DockerContainer {
        id: container.id,
        names: container.names,
        image: container.image,
        state: container.state,
        status: container.status,
    }
}

impl From<RawContainer> for DockerContainer {
    fn from(container: RawContainer) -> (r: DockerContainer) {
        DockerContainer {
            id: container.id,
            names: container.names,
            image: container.image,
            state: container.state,
            status: container.status,
        }
    }
}

impl vstd::std_specs::convert::FromSpecImpl<RawContainer> for DockerContainer {
    open spec fn obeys_from_spec() -> bool {
        true
    }

    open spec fn from_spec(container: RawContainer) -> DockerContainer {
        shown_as(container)
    }
}

/// Whether the Docker daemon could be reached.
#[derive(Clone, Copy, Debug, PartialEq, Eq, Structural)]
pub enum DockerStatus {
    Detected,
    NotDetected,
}

impl Default for DockerStatus {
    /// Not detected until a listing succeeds.
    fn default() -> (s: Self)
        ensures
            s == DockerStatus::NotDetected,
    {
        DockerStatus::NotDetected
    }
}

/// The containers of one poll.
#[derive(Clone, Debug, PartialEq, Eq)]
pub struct DockerSnapshot {
    pub status: DockerStatus,
    pub containers: Vec<DockerContainer>,
}

impl Default for DockerSnapshot {
    /// Docker not detected, no containers.
    fn default() -> (s: Self)
        ensures
            s.status == DockerStatus::NotDetected,
            s.containers@.len() == 0,
    {
        not_detected_snapshot()
    }
}

/// Why a snapshot could not be taken.
#[derive(Debug)]
pub enum DockerProbeError {
    List(String),
}

impl DockerProbeError {
    /// The error's message.
    pub fn message(&self) -> (m: String)
        ensures
            m@ == (match self {
                DockerProbeError::List(e) => "failed to list Docker containers: "@ + e@,
            }),
    {
        match self {
            DockerProbeError::List(e) => String::from_str("failed to list Docker containers: ").concat(e.as_str()),
        }
    }
}

/// What a backend reports when a listing fails.
#[derive(Debug)]
pub enum DockerBackendError {
    /// The daemon's socket is absent or refuses connections.
    NotDetected,
    /// The daemon answered with an error.
    Request(String),
}

/// The kind of an I/O error, as far as reaching the daemon goes.
#[derive(Clone, Copy, Debug, PartialEq, Eq, Structural)]
pub enum IoFailure {
    ConnectionRefused,
    ConnectionReset,
    ConnectionAborted,
    NotConnected,
    BrokenPipe,
    TimedOut,
    Other,
}

/// What a failed request to the daemon reported.
pub enum RequestFailure {
    /// The daemon's socket was not found.
    SocketNotFound,
    /// The request timed out.
    Timeout,
    /// An I/O error of this kind.
    Io(IoFailure),
    /// The HTTP client could not connect.
    ConnectFailed,
    /// Any other error, with the kinds of the I/O errors among its
    /// sources, nearest first.
    Other(Vec<IoFailure>),
}

/// An I/O error of this kind means the daemon cannot be reached.
pub open spec fn unreachable_kind(kind: IoFailure) -> bool {
    !(kind is Other)
}

/// The failure means the daemon cannot be reached: a missing socket, a
/// timeout, a failed connection, or an I/O error (direct, or among the
/// sources of another error) of an unreachable kind.
pub open spec fn daemon_unreachable(failure: RequestFailure) -> bool {
    match failure {
        RequestFailure::SocketNotFound | RequestFailure::Timeout | RequestFailure::ConnectFailed => true,
        RequestFailure::Io(kind) => unreachable_kind(kind),
        RequestFailure::Other(chain) => exists|i: int| 0 <= i < chain@.len() && unreachable_kind(#[trigger] chain@[i]),
    }
}

/// The backend error for a failed request with this message: the daemon
/// is not detected when it cannot be reached, otherwise the request failed
/// with the message.
pub fn request_error(failure: RequestFailure, message: String) -> (e: DockerBackendError)
    ensures
        daemon_unreachable(failure) ==> e is NotDetected,
        !daemon_unreachable(failure) ==> (e matches DockerBackendError::Request(m) && m@ == message@),
{
    let unreachable = match &failure {
        RequestFailure::SocketNotFound | RequestFailure::Timeout | RequestFailure::ConnectFailed => true,
        RequestFailure::Io(kind) => !matches!(kind, IoFailure::Other),
        RequestFailure::Other(chain) => {
            let mut found = false;
            let mut i: usize = 0;
            while i < chain.len()
                invariant
                    i <= chain@.len(),
                    found == exists|j: int| 0 <= j < i && unreachable_kind(#[trigger] chain@[j]),
                decreases chain@.len() - i,
            {
                if !matches!(chain[i], IoFailure::Other) {
                    found = true;
                }
                i = i + 1;
            }
            found
        },
    };
    if unreachable {
        DockerBackendError::NotDetected
    } else {
        DockerBackendError::Request(message)
    }
}

impl DockerBackendError {
    /// The error's message.
    pub fn message(&self) -> (m: String)
        ensures
            m@ == (match self {
                DockerBackendError::NotDetected => "Docker socket not detected"@,
                DockerBackendError::Request(e) => e@,
            }),
    {
        match self {
            DockerBackendError::NotDetected => String::from_str("Docker socket not detected"),
            DockerBackendError::Request(e) => e.clone(),
        }
    }
}

/// The snapshot when the daemon cannot be reached.
pub fn not_detected_snapshot() -> (s: DockerSnapshot)
    ensures
        s.status == DockerStatus::NotDetected,
        s.containers@.len() == 0,
{
    DockerSnapshot { status: DockerStatus::NotDetected, containers: Vec::new() }
}

/// `shown` is the listing `listed` as the menu shows it: the same
/// containers, in the same order, field for field.
pub open spec fn shows(shown: Seq<DockerContainer>, listed: Seq<RawContainer>) -> bool {
    &&& shown.len() == listed.len()
    &&& forall|i: int| 0 <= i < shown.len() ==> #[trigger] shown[i] == shown_as(listed[i])
}

/// The outcome of a poll for a backend's listing: a listing is a snapshot
/// of every container, running or stopped; an unreachable daemon is a
/// not-detected snapshot (not an error, so the menu recovers when Docker
/// appears); a failed request is an error with the daemon's message.
pub fn snapshot_from_listing(listing: Result<Vec<RawContainer>, DockerBackendError>) -> (r: Result<
    DockerSnapshot,
    DockerProbeError,
>)
    ensures
        match listing {
            Ok(cs) => r matches Ok(s) && s.status == DockerStatus::Detected && shows(s.containers@, cs@) && (forall|i: int|
                0 <= i < cs@.len() ==> {
                    &&& (#[trigger] s.containers@[i]).id@ == cs@[i].id@
                    &&& s.containers@[i].names@ == cs@[i].names@
                    &&& s.containers@[i].image@ == cs@[i].image@
                    &&& s.containers@[i].state@ == cs@[i].state@
                    &&& s.containers@[i].status@ == cs@[i].status@
                }),
            Err(DockerBackendError::NotDetected) => r matches Ok(s) && s.status == DockerStatus::NotDetected
                && s.containers@.len() == 0,
            Err(DockerBackendError::Request(e)) => r matches Err(DockerProbeError::List(m)) && m == e,
        },
{
    match listing {
        Ok(containers) => {
            let ghost listed = containers@;
            let mut shown: Vec<DockerContainer> = Vec::new();
            let mut containers = containers;
            let n = containers.len();
            let mut i: usize = 0;
            while i < n
                invariant
                    n == listed.len(),
                    containers@.len() == n,
                    i <= n,
                    forall|j: int| i <= j < n ==> #[trigger] containers@[j] == listed[j],
                    shown@.len() == i,
                    forall|j: int| 0 <= j < i ==> #[trigger] shown@[j] == shown_as(listed[j]),
                decreases n - i,
            {
                let mut c = RawContainer {
                    id: String::new(),
                    names: Vec::new(),
                    image: String::new(),
                    state: String::new(),
                    status: String::new(),
                };
                containers.set_and_swap(i, &mut c);
                assert(c == listed[i as int]);
                shown.push(DockerContainer::from(c));
                i = i + 1;
            }
            Ok(DockerSnapshot { status: DockerStatus::Detected, containers: shown })
        },
        Err(DockerBackendError::NotDetected) => Ok(not_detected_snapshot()),
        Err(DockerBackendError::Request(error)) => Err(DockerProbeError::List(error)),
    }
}

/// Polls Docker through a backend. The backend's listing is awaited by the
/// caller, which hands it to `snapshot_from_listing`.
pub struct DockerProbe<B> {
    pub backend: B,
}

impl<B> DockerProbe<B> {
    /// A probe over `backend`.
    pub fn new(backend: B) -> (p: Self)
        ensures
            p.backend == backend,
    {
        DockerProbe { backend }
    }
}

/// A backend that replays scripted outcomes, for tests: each listing takes
/// the next scripted outcome (an empty listing once they run out), each
/// log request the next scripted log outcome, and listings are counted.
pub struct FakeDockerBackend {
    outcomes: Vec<Result<Vec<RawContainer>, DockerBackendError>>,
    logs: Vec<Result<Vec<Vec<u8>>, DockerBackendError>>,
    calls: usize,
}

impl FakeDockerBackend {
    /// The outcomes still scripted for listings, next first.
    pub closed spec fn pending(&self) -> Seq<Result<Vec<RawContainer>, DockerBackendError>> {
        self.outcomes@
    }

    /// The outcomes still scripted for log requests, next first.
    pub closed spec fn pending_logs(&self) -> Seq<Result<Vec<Vec<u8>>, DockerBackendError>> {
        self.logs@
    }

    /// How many listings were made.
    pub closed spec fn call_count(&self) -> nat {
        self.calls as nat
    }

    /// A backend whose listings give `outcomes`, in order.
    pub fn new(outcomes: Vec<Result<Vec<RawContainer>, DockerBackendError>>) -> (b: Self)
        ensures
            b.pending() == outcomes@,
            b.pending_logs().len() == 0,
            b.call_count() == 0,
    {
        FakeDockerBackend { outcomes, logs: Vec::new(), calls: 0 }
    }

    /// A backend whose log requests give `outcomes`, in order.
    pub fn with_logs(outcomes: Vec<Result<Vec<Vec<u8>>, DockerBackendError>>) -> (b: Self)
        ensures
            b.pending().len() == 0,
            b.pending_logs() == outcomes@,
            b.call_count() == 0,
    {
        FakeDockerBackend { outcomes: Vec::new(), logs: outcomes, calls: 0 }
    }

    /// How many listings were made.
    pub fn calls(&self) -> (n: usize)
        ensures
            n == self.call_count(),
    {
        self.calls
    }

    /// The next listing: the next scripted outcome, or an empty listing
    /// once they have run out. Counts the call.
    pub fn next_listing(&mut self) -> (r: Result<Vec<RawContainer>, DockerBackendError>)
        requires
            old(self).call_count() < usize::MAX,
        ensures
            final(self).call_count() == old(self).call_count() + 1,
            final(self).pending_logs() == old(self).pending_logs(),
            if old(self).pending().len() > 0 {
                &&& r == old(self).pending()[0]
                &&& final(self).pending() == old(self).pending().drop_first()
            } else {
                &&& r matches Ok(cs) && cs@.len() == 0
                &&& final(self).pending().len() == 0
            },
    {
        self.calls = self.calls + 1;
        if self.outcomes.len() > 0 {
            let ghost before = self.outcomes@;
            let r = self.outcomes.remove(0);
            assert(self.outcomes@ =~= before.drop_first());
            r
        } else {
            Ok(Vec::new())
        }
    }

    /// The next log request's outcome: the next scripted one, or no chunks
    /// once they have run out.
    pub fn next_logs(&mut self) -> (r: Result<Vec<Vec<u8>>, DockerBackendError>)
        ensures
            final(self).call_count() == old(self).call_count(),
            final(self).pending() == old(self).pending(),
            if old(self).pending_logs().len() > 0 {
                &&& r == old(self).pending_logs()[0]
                &&& final(self).pending_logs() == old(self).pending_logs().drop_first()
            } else {
                &&& r matches Ok(chunks) && chunks@.len() == 0
                &&& final(self).pending_logs().len() == 0
            },
    {
        if self.logs.len() > 0 {
            let ghost before = self.logs@;
            let r = self.logs.remove(0);
            assert(self.logs@ =~= before.drop_first());
            r
        } else {
            Ok(Vec::new())
        }
    }
}

/// Law: a container is shown with the listing's own fields: its id, names,
/// image, state and status, each in its own place.
pub proof fn law_container_fields_kept(c: RawContainer)
    ensures
        shown_as(c).id@ == c.id@,
        shown_as(c).names@ == c.names@,
        shown_as(c).image@ == c.image@,
        shown_as(c).state@ == c.state@,
        shown_as(c).status@ == c.status@,
{
}

} // verus!
