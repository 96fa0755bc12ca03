use portus::docker::{
    not_detected_snapshot, snapshot_from_listing, DockerBackendError, DockerContainer, DockerProbe,
    DockerProbeError, DockerSnapshot, DockerStatus, FakeDockerBackend, RawContainer, request_error, IoFailure,
    RequestFailure,
};

fn container(id: &str, state: &str) -> RawContainer {
    RawContainer {
        id: id.into(),
        names: vec![format!("/{id}")],
        image: "example:latest".into(),
        state: state.into(),
        status: state.into(),
    }
}

/// One poll of the probe: the backend's listing, turned into a snapshot.
fn snapshot(probe: &mut DockerProbe<FakeDockerBackend>) -> Result<DockerSnapshot, DockerProbeError> {
    snapshot_from_listing(probe.backend.next_listing())
}

#[test]
fn snapshot_includes_running_and_stopped_containers() {
    let backend = FakeDockerBackend::new(vec![Ok(vec![container("running", "running"), container("stopped", "exited")])]);
    let mut probe = DockerProbe::new(backend);

    let snapshot = snapshot(&mut probe).unwrap();

    assert_eq!(snapshot.status, DockerStatus::Detected);
    assert_eq!(snapshot.containers.len(), 2);
    assert_eq!(snapshot.containers[0].state, "running");
    assert_eq!(snapshot.containers[1].state, "exited");
}

#[test]
fn socket_absence_recovers_when_docker_appears() {
    let backend = FakeDockerBackend::new(vec![
        Err(DockerBackendError::NotDetected),
        Ok(vec![container("recovered", "running")]),
    ]);
    let mut probe = DockerProbe::new(backend);

    let first = snapshot(&mut probe).unwrap();
    let second = snapshot(&mut probe).unwrap();

    assert_eq!(first.status, DockerStatus::NotDetected);
    assert!(first.containers.is_empty());
    assert_eq!(second.status, DockerStatus::Detected);
    assert_eq!(second.containers[0].id, "recovered");
    assert_eq!(probe.backend.calls(), 2);
}

#[test]
fn request_failures_are_reported_without_caching_not_detected() {
    let backend = FakeDockerBackend::new(vec![
        Err(DockerBackendError::Request("daemon unavailable".into())),
        Ok(vec![container("recovered", "running")]),
    ]);
    let mut probe = DockerProbe::new(backend);

    assert!(matches!(
        snapshot(&mut probe),
        Err(DockerProbeError::List(message)) if message == "daemon unavailable"
    ));
    assert_eq!(snapshot(&mut probe).unwrap().containers.len(), 1);
    assert_eq!(probe.backend.calls(), 2);
}

#[test]
fn an_exhausted_script_lists_no_containers() {
    let mut backend = FakeDockerBackend::new(vec![]);
    assert!(matches!(backend.next_listing(), Ok(ref cs) if cs.is_empty()));
    assert_eq!(backend.calls(), 1);
}

#[test]
fn scripted_logs_are_replayed_in_order() {
    let mut backend = FakeDockerBackend::with_logs(vec![Ok(vec![b"hi".to_vec()]), Err(DockerBackendError::NotDetected)]);
    assert_eq!(backend.next_logs().unwrap(), vec![b"hi".to_vec()]);
    assert!(matches!(backend.next_logs(), Err(DockerBackendError::NotDetected)));
    assert!(backend.next_logs().unwrap().is_empty());
    assert_eq!(backend.calls(), 0);
}

#[test]
fn containers_are_shown_field_for_field() {
    let raw = container("abc", "running");
    let shown = DockerContainer::from(raw.clone());
    assert_eq!(shown.id, raw.id);
    assert_eq!(shown.names, raw.names);
    assert_eq!(shown.image, raw.image);
    assert_eq!(shown.status, raw.status);
}

#[test]
fn defaults_and_messages() {
    assert_eq!(DockerStatus::default(), DockerStatus::NotDetected);
    assert_eq!(DockerSnapshot::default(), not_detected_snapshot());
    assert_eq!(DockerBackendError::NotDetected.message(), "Docker socket not detected");
    assert_eq!(DockerBackendError::Request("boom".to_string()).message(), "boom");
    assert_eq!(
        DockerProbeError::List("boom".to_string()).message(),
        "failed to list Docker containers: boom"
    );
}

#[test]
fn an_unreachable_daemon_is_not_detected_and_other_failures_are_requests() {
    let not_detected = |f: RequestFailure| matches!(request_error(f, "boom".to_string()), DockerBackendError::NotDetected);
    assert!(not_detected(RequestFailure::SocketNotFound));
    assert!(not_detected(RequestFailure::Timeout));
    assert!(not_detected(RequestFailure::ConnectFailed));
    assert!(not_detected(RequestFailure::Io(IoFailure::ConnectionRefused)));
    assert!(not_detected(RequestFailure::Other(vec![IoFailure::Other, IoFailure::BrokenPipe])));
    match request_error(RequestFailure::Io(IoFailure::Other), "permission denied".to_string()) {
        DockerBackendError::Request(m) => assert_eq!(m, "permission denied"),
        other => panic!("expected a request error, got {other:?}"),
    }
    match request_error(RequestFailure::Other(vec![IoFailure::Other]), "bad json".to_string()) {
        DockerBackendError::Request(m) => assert_eq!(m, "bad json"),
        other => panic!("expected a request error, got {other:?}"),
    }
}
