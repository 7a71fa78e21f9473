use rmux::codec::{encode_frame, CodecError, FrameDecoder};
use rmux::ipc::{
    check_socket_endpoint, check_socket_permissions, control_socket_path, daemon_arguments,
    daemon_executable, drain_step, endpoint_startup_lock_path, join_path,
    local_control_response_name, negotiated_capabilities, pipe_path, restart_request,
    restart_result, retryable_connect_error, runtime_directory, secure_runtime_directory,
    shutdown_step, sibling_daemon, socket_path, ConnectAttempt, ConnectError, ConnectStep,
    DrainStep, EndpointDrainError, FileFacts, IoFailure, IoFailureKind, LocalControlCapabilities,
    LocalControlClientError, LocalControlClientMessage, LocalControlErrorCode,
    LocalControlServerMessage, LOCAL_CONTROL_PROTOCOL_VERSION, MAX_LOCAL_CONTROL_FRAME_SIZE,
};

fn failure(kind: IoFailureKind) -> IoFailure {
    IoFailure { kind, message: "failed".to_owned() }
}

fn denied(message: &str) -> IoFailure {
    IoFailure { kind: IoFailureKind::PermissionDenied, message: message.to_owned() }
}

#[test]
fn socket_is_inside_runtime_directory() {
    let path = socket_path("/run/user/1000/rmux");
    assert_eq!(std::path::Path::new(&path).file_name().unwrap(), "rmux.sock");
    assert_eq!(path, "/run/user/1000/rmux/rmux.sock");
}

#[test]
fn control_socket_is_derived_from_the_selected_data_socket() {
    assert_eq!(
        control_socket_path("/private/runtime/custom-rmux.sock").unwrap(),
        "/private/runtime/custom-rmux.sock.control"
    );
}

#[test]
fn only_absent_endpoints_are_safe_to_replace() {
    assert!(ConnectError::Connect(failure(IoFailureKind::NotFound)).is_endpoint_unavailable());
    assert!(
        ConnectError::Connect(failure(IoFailureKind::ConnectionRefused)).is_endpoint_unavailable()
    );
    assert!(
        !ConnectError::Connect(failure(IoFailureKind::PermissionDenied)).is_endpoint_unavailable()
    );
}

#[test]
fn an_endpoint_needs_a_name() {
    assert_eq!(
        control_socket_path("/"),
        Err(IoFailure {
            kind: IoFailureKind::InvalidInput,
            message: "rmux data endpoint / has no final path component".to_owned()
        })
    );
    assert_eq!(
        control_socket_path("/run/..").unwrap_err().message,
        "rmux data endpoint /run/.. has no final path component"
    );
    assert_eq!(control_socket_path("/run/rmux.sock/"), Ok("/run/rmux.sock.control".to_owned()));
}

#[test]
fn different_endpoints_have_different_control_endpoints() {
    let first = control_socket_path("/run/a.sock").unwrap();
    let second = control_socket_path("/run/b.sock").unwrap();
    assert_ne!(first, second);
}

#[test]
fn the_runtime_directory_is_chosen_in_order() {
    let text = |value: &str| Some(value.to_owned());
    assert_eq!(runtime_directory(text("/mine"), text("/run/user/7"), 7), "/mine");
    assert_eq!(runtime_directory(None, text("/run/user/7"), 7), "/run/user/7/rmux");
    assert_eq!(runtime_directory(None, None, 7), "/tmp/rmux-7");
    assert_eq!(join_path("", "name"), "name");
    assert_eq!(join_path("/", "name"), "/name");
}

#[test]
fn a_pipe_stands_for_its_directory() {
    let units = |text: &str| text.encode_utf16().collect::<Vec<u16>>();
    let first = pipe_path(&units("C:\\one"));
    assert_eq!(first, pipe_path(&units("C:\\one")));
    assert_ne!(first, pipe_path(&units("C:\\two")));
    assert!(first.starts_with("\\\\.\\pipe\\ctl-rmuxd-"));
    let bytes: Vec<u8> = units("C:\\one").iter().flat_map(|unit| unit.to_le_bytes()).collect();
    let id = uuid::Uuid::new_v5(&uuid::Uuid::NAMESPACE_OID, &bytes);
    assert_eq!(first, format!("\\\\.\\pipe\\ctl-rmuxd-{id}"));
}

#[test]
fn a_daemon_is_started_beside_its_client() {
    assert_eq!(endpoint_startup_lock_path("/run/rmux.sock"), "/run/rmux.sock.lock");
    assert_eq!(sibling_daemon("/usr/bin/rmux"), "/usr/bin/rmuxd");
    assert_eq!(
        daemon_executable(None, "/usr/bin/rmuxd".to_owned(), true),
        "/usr/bin/rmuxd"
    );
    assert_eq!(daemon_executable(None, "/usr/bin/rmuxd".to_owned(), false), "rmuxd");
    assert_eq!(
        daemon_executable(Some("/opt/d".to_owned()), "/usr/bin/rmuxd".to_owned(), true),
        "/opt/d"
    );
    assert_eq!(
        daemon_arguments("/run/rmux.sock"),
        vec!["--socket", "/run/rmux.sock", "--detach-from-terminal"]
    );
}

#[test]
fn a_runtime_directory_is_private() {
    let facts = |is_symlink, is_expected_kind, owner, mode| FileFacts {
        is_symlink,
        is_expected_kind,
        owner,
        mode,
    };
    assert_eq!(secure_runtime_directory("/r", facts(false, true, 7, 0o700), 7), Ok(()));
    assert_eq!(
        secure_runtime_directory("/r", facts(true, true, 7, 0o700), 7),
        Err(denied("runtime path /r is not a real directory"))
    );
    assert_eq!(
        secure_runtime_directory("/r", facts(false, false, 7, 0o700), 7),
        Err(denied("runtime path /r is not a real directory"))
    );
    assert_eq!(
        secure_runtime_directory("/r", facts(false, true, 8, 0o700), 7),
        Err(denied("runtime directory /r is owned by another user"))
    );
    assert_eq!(
        secure_runtime_directory("/r", facts(false, true, 7, 0o710), 7),
        Err(denied("runtime directory /r is accessible by other users"))
    );
    assert_eq!(check_socket_endpoint("/s", facts(false, true, 7, 0o600), 7), Ok(()));
    assert_eq!(
        check_socket_endpoint("/s", facts(false, false, 7, 0o600), 7),
        Err(denied("local endpoint /s is not a Unix socket"))
    );
    assert_eq!(
        check_socket_endpoint("/s", facts(false, true, 8, 0o600), 7),
        Err(denied("local endpoint /s is owned by another user"))
    );
    assert_eq!(check_socket_permissions("/s", 0o100_600), Ok(()));
    assert_eq!(
        check_socket_permissions("/s", 0o604),
        Err(denied("local endpoint /s is accessible by other users"))
    );
}

#[test]
fn restart_request_refuses_a_control_endpoint_without_capability() {
    let accepted = LocalControlServerMessage::HandshakeAccepted {
        protocol_version: LOCAL_CONTROL_PROTOCOL_VERSION,
        restart_supported: false,
    };
    let capabilities = negotiated_capabilities(Some(accepted)).unwrap();
    assert!(!capabilities.restart_supported);
    let error = restart_request(capabilities)
        .expect_err("unsupported control capability must refuse restart");
    assert!(matches!(error, LocalControlClientError::RestartUnsupported));
    assert_eq!(
        restart_request(LocalControlCapabilities { restart_supported: true }),
        Ok(LocalControlClientMessage::RestartDaemon)
    );
}

#[test]
fn local_control_answers_are_checked() {
    let error = || LocalControlServerMessage::Error {
        code: LocalControlErrorCode::RestartInProgress,
        message: "busy".to_owned(),
    };
    let refused = LocalControlClientError::Server {
        code: LocalControlErrorCode::RestartInProgress,
        message: "busy".to_owned(),
    };
    assert_eq!(refused.message(), "local-control server error RestartInProgress: busy");
    assert_eq!(negotiated_capabilities(Some(error())), Err(refused));
    assert_eq!(
        negotiated_capabilities(None),
        Err(LocalControlClientError::UnexpectedResponse {
            expected: "handshake_accepted",
            actual: "end_of_stream"
        })
    );
    let accepted = LocalControlServerMessage::RestartAccepted { terminated_sessions: 3 };
    assert_eq!(local_control_response_name(&accepted), "restart_accepted");
    assert_eq!(restart_result(Some(accepted)), Ok(3));
    let ended = restart_result(None).unwrap_err();
    assert_eq!(ended.message(), "expected local-control restart_accepted, received end_of_stream");
    assert!(restart_result(Some(error())).is_err());
}

#[test]
fn missing_endpoint_starts_daemon_then_retries() {
    let first = ConnectAttempt::First;
    assert_eq!(first.after_failure(failure(IoFailureKind::NotFound), 0), ConnectStep::Start);
    let started = ConnectAttempt::started(100, 1_000);
    assert_eq!(
        started.after_failure(failure(IoFailureKind::ConnectionRefused), 1_099),
        ConnectStep::Retry
    );
    assert_eq!(
        started.after_failure(failure(IoFailureKind::ConnectionRefused), 1_100),
        ConnectStep::Fail(ConnectError::Connect(failure(IoFailureKind::ConnectionRefused)))
    );
}

#[test]
fn non_retryable_connect_error_does_not_start_daemon() {
    assert_eq!(
        ConnectAttempt::First.after_failure(failure(IoFailureKind::PermissionDenied), 0),
        ConnectStep::Fail(ConnectError::Connect(failure(IoFailureKind::PermissionDenied)))
    );
    assert!(!retryable_connect_error(&failure(IoFailureKind::PermissionDenied)));
    assert!(retryable_connect_error(&failure(IoFailureKind::NotFound)));
}

#[test]
fn connection_errors_are_explained() {
    assert_eq!(
        ConnectError::Connect(failure(IoFailureKind::Other)).message(),
        "could not connect to rmuxd: failed"
    );
    assert_eq!(
        ConnectError::CurrentExecutable(failure(IoFailureKind::Other)).message(),
        "could not determine the current executable: failed"
    );
    assert_eq!(
        ConnectError::StartDaemon {
            executable: "/d".to_owned(),
            source: failure(IoFailureKind::NotFound)
        }
        .message(),
        "could not start daemon using /d: failed"
    );
    assert_eq!(
        EndpointDrainError::TimedOut { timeout_ms: 15_000 }.message(),
        "rmuxd did not release the local endpoint within 15s"
    );
    assert_eq!(
        EndpointDrainError::Connect(failure(IoFailureKind::Other)).message(),
        "could not probe the rmuxd endpoint: failed"
    );
}

#[test]
fn endpoint_drain_waits_until_the_endpoint_becomes_unavailable() {
    assert_eq!(drain_step(Ok(()), 0, 1_000, 1_000), DrainStep::Wait);
    assert_eq!(
        drain_step(Err(failure(IoFailureKind::ConnectionRefused)), 10, 1_000, 1_000),
        DrainStep::Drained
    );
}

#[test]
fn endpoint_drain_times_out_without_forcing_a_live_endpoint() {
    assert_eq!(
        drain_step(Ok(()), 0, 0, 0),
        DrainStep::Fail(EndpointDrainError::TimedOut { timeout_ms: 0 })
    );
}

#[test]
fn endpoint_drain_stops_on_an_unexpected_probe_error() {
    assert_eq!(
        drain_step(Err(failure(IoFailureKind::PermissionDenied)), 0, 1_000, 1_000),
        DrainStep::Fail(EndpointDrainError::Connect(failure(IoFailureKind::PermissionDenied)))
    );
}

#[test]
fn a_daemon_is_gone_when_both_endpoints_are() {
    let absent = || Err(failure(IoFailureKind::NotFound));
    assert_eq!(shutdown_step(absent(), absent(), 0, 10, 10), DrainStep::Drained);
    assert_eq!(shutdown_step(Ok(()), absent(), 0, 10, 10), DrainStep::Wait);
    assert_eq!(shutdown_step(absent(), Ok(()), 0, 10, 10), DrainStep::Wait);
    assert_eq!(
        shutdown_step(absent(), Ok(()), 10, 10, 10),
        DrainStep::Fail(EndpointDrainError::TimedOut { timeout_ms: 10 })
    );
}

#[test]
fn frames_come_back_in_order_whatever_their_chunks() {
    let payloads: [&[u8]; 3] = [b"first", b"", b"{\"type\":\"detach\"}"];
    let mut stream = Vec::new();
    for payload in payloads {
        stream.extend_from_slice(&encode_frame(payload, 64).unwrap());
    }
    for size in 1..=stream.len() {
        let mut decoder = FrameDecoder::new(64);
        let mut seen: Vec<Vec<u8>> = Vec::new();
        for chunk in stream.chunks(size) {
            decoder.push(chunk);
            while let Some(frame) = decoder.next_frame().unwrap() {
                seen.push(frame);
            }
        }
        assert_eq!(decoder.finish(), Ok(()));
        assert_eq!(seen, payloads);
    }
}

#[test]
fn a_frame_starts_with_its_length() {
    assert_eq!(encode_frame(b"abc", 16).unwrap(), [0, 0, 0, 3, b'a', b'b', b'c']);
}

#[test]
fn clean_eof_returns_none() {
    let mut decoder = FrameDecoder::new(64);
    assert_eq!(decoder.next_frame(), Ok(None));
    assert_eq!(decoder.finish(), Ok(()));
}

#[test]
fn truncated_header_is_an_error() {
    let mut decoder = FrameDecoder::new(64);
    decoder.push(&[0, 0]);
    assert_eq!(decoder.next_frame(), Ok(None));
    assert!(matches!(
        decoder.finish(),
        Err(CodecError::Io(error)) if error.kind == IoFailureKind::UnexpectedEof
    ));
}

#[test]
fn oversized_frames_are_refused_on_both_sides() {
    assert_eq!(
        encode_frame(b"abcd", 3),
        Err(CodecError::FrameTooLarge { actual: 4, maximum: 3 })
    );
    let mut decoder = FrameDecoder::new(3);
    decoder.push(&[0, 0, 0, 4]);
    let refused = decoder.next_frame().unwrap_err();
    assert_eq!(refused, CodecError::FrameTooLarge { actual: 4, maximum: 3 });
    assert!(refused.message().contains('4'));
    assert!(refused.local_control_message().contains('4'));
    assert_eq!(MAX_LOCAL_CONTROL_FRAME_SIZE, 64 * 1024);
    assert!(CodecError::Json("odd".to_owned()).message().contains("odd"));
}
