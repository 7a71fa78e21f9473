use rmux::client::ClientError;
use rmux::controller::{AttachExit, AttachExitReason, PresentationAck};
use rmux::dto::{
    attach_request, bounded_input, create_message, created_session, decode_input, gui_identity,
    listed_sessions, parse_sequence, protocol_error_code, succeeded, AttachmentEventDto,
    CommandErrorDto, CreateSessionRequestDto, OpenAttachmentRequestDto,
    PresentationAcknowledgement, SessionDto, ShellStateDto, TerminalCheckpointDto, TerminalSizeDto,
    WindowBootstrapDto, MAX_INPUT_BYTES,
};
use rmux::ipc::{
    ConnectError, EndpointDrainError, IoFailure, IoFailureKind, LocalControlCapabilities,
    LocalControlClientError, LocalControlErrorCode,
};
use rmux::menu::{
    build, command_entry, frontend_command, MenuEntry, MenuName, CLOSE_SESSION_COMMAND_ID,
    DETACH_TAB_COMMAND_ID, NATIVE_COMMAND_EVENT,
};
use rmux::proto::{
    ClientMessage, CommandLine, ErrorCode, ServerMessage, SessionInfo, SessionStatus, ShellState,
    TerminalCheckpoint, TerminalSize,
};
use rmux::restart::{
    after_control_connect, after_data_connect, after_preflight_handshake,
    default_working_directory, drain_failed, local_control_error, local_control_error_code,
    preflight_local_control_error, replacement_checked, restart_preflight_failure,
    restart_requested, restart_transition_error, restart_unsupported, HomeDirectory, PreflightStep,
    RestartDaemonPreflight, RestartLocalDaemonOutcome,
};

fn session_info() -> SessionInfo {
    SessionInfo {
        session_id: "session".into(),
        name: "large".into(),
        status: SessionStatus::Running,
        created_at_ms: u64::MAX,
        next_sequence: u64::MAX,
        terminal_size: TerminalSize::default(),
    }
}

#[test]
fn session_u64_values_are_decimal_strings() {
    let dto = SessionDto::from_proto(session_info());
    assert_eq!(dto.next_sequence, u64::MAX.to_string());
}

#[test]
fn output_preserves_sequence_precision_and_bytes() {
    let event = AttachmentEventDto::output(
        "attachment",
        "event".into(),
        u64::MAX - 2,
        u64::MAX,
        &[0, 0xff],
    );
    match event {
        AttachmentEventDto::Output { sequence_end, data_base64, .. } => {
            assert_eq!(sequence_end, u64::MAX.to_string());
            assert_eq!(data_base64, "AP8=");
        }
        _ => panic!("expected output"),
    }
}

#[test]
fn shell_state_dto_never_serializes_the_command_line() {
    let state = ShellState {
        current_command_line: Some(CommandLine {
            text: "secret".into(),
            cursor_scalar_offset: Some(6),
        }),
        ..ShellState::default()
    };
    let shown = format!("{:?}", ShellStateDto::from_proto(state));
    assert!(!shown.contains("secret"));
    assert!(!shown.contains("current_command_line"));
}

#[test]
fn pending_renderer_event_forces_a_checkpoint_reconnect() {
    let exit = AttachExit {
        reason: AttachExitReason::ConnectionClosed,
        next_sequence: Some(u64::MAX),
        received_sequence: u64::MAX,
    };
    let next = |event| match event {
        AttachmentEventDto::AttachmentExited { next_sequence, .. } => next_sequence,
        _ => panic!("expected an exit"),
    };
    let safe = next(AttachmentEventDto::attachment_exited("attachment", &exit, false));
    let pending = next(AttachmentEventDto::attachment_exited("attachment", &exit, true));

    assert_eq!(safe, Some(u64::MAX.to_string()));
    assert_eq!(pending, None);
}

#[test]
fn client_server_errors_preserve_the_protocol_code() {
    let error = CommandErrorDto::client(
        ClientError::Server {
            code: ErrorCode::SessionNotFound,
            message: "already gone".into(),
        },
        "",
    );

    assert_eq!(error.code, "session_not_found");
    assert_eq!(error.message, "already gone");
}

#[test]
fn other_client_errors_are_the_backends() {
    let error = CommandErrorDto::client(ClientError::UnexpectedEof, "");
    assert_eq!(error.code, "backend_error");
    assert_eq!(error.message, "daemon closed the connection before responding");
    assert_eq!(protocol_error_code(&ErrorCode::AttachmentResumeRejected), "attachment_resume_rejected");
}

#[test]
fn local_control_error_codes_are_stable() {
    assert_eq!(
        local_control_error_code(LocalControlErrorCode::RestartInProgress),
        "daemon_restart_in_progress"
    );
    assert_eq!(
        local_control_error_code(LocalControlErrorCode::ProtocolVersionMismatch),
        "local_control_protocol_version_mismatch"
    );
}

#[test]
fn preflight_failures_are_non_destructive_but_armed_failures_are_not() {
    let protocol_mismatch = preflight_local_control_error(&LocalControlClientError::Server {
        code: LocalControlErrorCode::ProtocolVersionMismatch,
        message: "local-control versions differ".into(),
    });
    assert_eq!(protocol_mismatch.code, "daemon_restart_unsupported");

    let unavailable_control = restart_preflight_failure("control endpoint is unavailable");
    assert_eq!(unavailable_control.code, "daemon_restart_unsupported");

    let armed_failure = restart_transition_error(restart_unsupported("request lost"));
    assert_eq!(armed_failure.code, "daemon_restart_transition_failed");
}

#[test]
fn maps_only_rmux_session_menu_items_to_frontend_commands() {
    assert_eq!(
        frontend_command(DETACH_TAB_COMMAND_ID),
        Some(DETACH_TAB_COMMAND_ID)
    );
    assert_eq!(
        frontend_command(CLOSE_SESSION_COMMAND_ID),
        Some(CLOSE_SESSION_COMMAND_ID)
    );
    assert_eq!(frontend_command("unrelated"), None);
}

#[test]
fn the_menu_offers_both_ways_to_close() {
    assert_eq!(NATIVE_COMMAND_EVENT, "rmux://command");
    let menus = build();
    let names: Vec<MenuName> = menus.iter().map(|menu| menu.name).collect();
    assert_eq!(
        names,
        vec![
            MenuName::Application,
            MenuName::File,
            MenuName::Edit,
            MenuName::View,
            MenuName::Window,
            MenuName::Help
        ]
    );
    assert_eq!(menus[1].entries, vec![MenuEntry::CloseTab, MenuEntry::CloseSession]);
    assert_eq!(menus[1].name.title(), Some("File"));
    assert_eq!(menus[0].name.title(), None);
    let close = command_entry(MenuEntry::CloseSession).unwrap();
    assert_eq!((close.id, close.label, close.accelerator), ("session.close", "Close Session…", "CmdOrCtrl+E"));
    let tab = command_entry(MenuEntry::CloseTab).unwrap();
    assert_eq!((tab.id, tab.label, tab.accelerator), ("session.disconnect", "Close Tab", "CmdOrCtrl+W"));
    assert_eq!(command_entry(MenuEntry::Quit), None);
}

fn failure(kind: IoFailureKind) -> IoFailure {
    IoFailure { kind, message: "failed".into() }
}

fn unsupported(step: PreflightStep) -> String {
    match step {
        PreflightStep::Fail(error) => {
            assert_eq!(error.code, "daemon_restart_unsupported");
            error.message
        }
        _ => panic!("expected a failure"),
    }
}

#[test]
fn a_probe_finds_out_what_serves() {
    assert_eq!(after_control_connect(Ok(())), PreflightStep::Handshake);
    let absent = || Err(ConnectError::Connect(failure(IoFailureKind::NotFound)));
    assert_eq!(after_control_connect(absent()), PreflightStep::ProbeData);
    assert_eq!(
        after_data_connect(absent()),
        PreflightStep::Done(RestartDaemonPreflight::DaemonAbsent)
    );
    assert_eq!(
        unsupported(after_data_connect(Ok(()))),
        "the running rmuxd has no owner-only local-control endpoint; restart it manually to upgrade"
    );
    assert_eq!(
        unsupported(after_control_connect(Err(ConnectError::Connect(failure(
            IoFailureKind::PermissionDenied
        ))))),
        "the running rmuxd cannot safely perform cooperative restart: could not connect to rmuxd: failed"
    );
    let capable = LocalControlCapabilities { restart_supported: true };
    assert_eq!(
        after_preflight_handshake(Some(Ok(capable))),
        PreflightStep::Done(RestartDaemonPreflight::Supported)
    );
    assert!(RestartDaemonPreflight::Supported.requires_attachment_detach());
    assert!(!RestartDaemonPreflight::DaemonAbsent.requires_attachment_detach());
    let incapable = LocalControlCapabilities { restart_supported: false };
    assert_eq!(
        unsupported(after_preflight_handshake(Some(Ok(incapable)))),
        "the running rmuxd does not advertise cooperative restart support"
    );
    assert!(unsupported(after_preflight_handshake(None)).contains("did not complete"));
}

#[test]
fn a_restart_is_reported() {
    assert_eq!(restart_requested(Some(Ok(3))), Ok(3));
    let late = restart_requested(None).unwrap_err();
    assert_eq!(
        late.message,
        "cooperative restart was armed after this window detached, but it could not continue \
         (daemon_restart_request_timeout): rmuxd did not respond to the cooperative restart request \
         within three seconds"
    );
    let busy = LocalControlClientError::Server {
        code: LocalControlErrorCode::RestartInProgress,
        message: "busy".into(),
    };
    assert_eq!(
        local_control_error(busy),
        CommandErrorDto { code: "daemon_restart_in_progress".into(), message: "busy".into() }
    );
    assert_eq!(
        local_control_error(LocalControlClientError::RestartUnsupported).code,
        "daemon_restart_unsupported"
    );
    assert_eq!(
        local_control_error(LocalControlClientError::Codec("odd".into())).code,
        "backend_error"
    );
    assert_eq!(
        drain_failed(&EndpointDrainError::TimedOut { timeout_ms: 15_000 }),
        CommandErrorDto {
            code: "daemon_restart_drain_failed".into(),
            message: "rmuxd did not stop cleanly: rmuxd did not release the local endpoint within \
                      15s. It was not forcibly restarted."
                .into()
        }
    );
    assert_eq!(
        replacement_checked(2, Some(Ok(LocalControlCapabilities { restart_supported: true }))),
        Ok(RestartLocalDaemonOutcome { terminated_sessions: 2 })
    );
    assert_eq!(replacement_checked(2, None).unwrap_err().code, "daemon_restart_transition_failed");
    assert!(
        replacement_checked(2, Some(Ok(LocalControlCapabilities { restart_supported: false })))
            .unwrap_err()
            .message
            .ends_with("the replacement rmuxd does not advertise cooperative restart support")
    );
}

#[test]
fn sessions_start_at_home() {
    assert_eq!(default_working_directory(HomeDirectory::Known("/home/me".into())), Ok("/home/me".into()));
    assert_eq!(
        default_working_directory(HomeDirectory::Unknown).unwrap_err().code,
        "home_directory_unavailable"
    );
    assert_eq!(
        default_working_directory(HomeDirectory::NotText).unwrap_err().code,
        "home_directory_not_utf8"
    );
}

#[test]
fn typed_input_is_decoded_and_bounded() {
    assert_eq!(decode_input("AP8="), Ok(vec![0, 0xff]));
    assert_eq!(decode_input("?").unwrap_err().code, "invalid_input_base64");
    assert!(bounded_input(vec![0; MAX_INPUT_BYTES]).is_ok());
    assert!(bounded_input(vec![0; MAX_INPUT_BYTES + 1]).is_err());
}

#[test]
fn sequences_are_written_as_decimals() {
    assert_eq!(parse_sequence(None), Ok(None));
    assert_eq!(parse_sequence(Some(u64::MAX.to_string())), Ok(Some(u64::MAX)));
    let odd = parse_sequence(Some("x".into())).unwrap_err();
    assert_eq!(odd.code, "invalid_sequence");
    assert!(odd.message.contains("invalid digit"));
    assert!(parse_sequence(Some("18446744073709551616".into())).is_err());
}

#[test]
fn a_text_that_is_no_sequence_is_refused_with_its_first_problem() {
    let refused = |text: &str| parse_sequence(Some(text.into())).unwrap_err().message;
    let because = |problem: &str| format!("sequence must be an unsigned decimal integer: {problem}");
    assert_eq!(refused(""), because("cannot parse integer from empty string"));
    assert_eq!(refused("+"), because("invalid digit found in string"));
    assert_eq!(
        refused("18446744073709551616"),
        because("number too large to fit in target type")
    );
    for text in [
        "", "+", "-", "++1", "+-1", "-1", "1+", "1 ", " 1", "x", "日", "1日", "0x1f",
        "18446744073709551616", "+18446744073709551616", "99999999999999999999",
        "99999999999999999999x", "9999999999999999999x", "99999999999999999999999x9",
        "1844674407370955161x6", "18446744073709551616x", "184467440737095516160", "-99999999999999999999",
        "00000000000000000000000018446744073709551616", "0000000000000000000000000x",
    ] {
        let problem = text.parse::<u64>().unwrap_err().to_string();
        assert_eq!(refused(text), because(&problem), "{text:?}");
    }
    for text in ["0", "+0", "007", "+18446744073709551615", "00000000000000000000000000000001"] {
        assert_eq!(parse_sequence(Some(text.into())), Ok(Some(text.parse::<u64>().unwrap())));
    }
}

#[test]
fn sizes_survive_the_way_to_the_client() {
    let size = TerminalSize { columns: 100, rows: 40, pixel_width: 800, pixel_height: 0 };
    let dto = TerminalSizeDto::from_proto(size);
    assert_eq!(dto.pixel_width, Some(800));
    assert_eq!(dto.pixel_height, None);
    assert_eq!(dto.into_proto(), Ok(size));
    let empty = TerminalSizeDto { columns: 0, rows: 40, pixel_width: None, pixel_height: None };
    assert_eq!(empty.into_proto().unwrap_err().code, "invalid_terminal_size");
}

#[test]
fn windows_start_somewhere() {
    let bootstrap = |working_directory: &str, columns: u16| WindowBootstrapDto {
        working_directory: working_directory.into(),
        terminal_size: TerminalSizeDto { columns, rows: 24, pixel_width: None, pixel_height: None },
    };
    assert_eq!(bootstrap("/work", 80).check(), Ok(()));
    assert_eq!(bootstrap("", 0).check().unwrap_err().code, "working_directory_unavailable");
    assert_eq!(bootstrap("/work", 0).check().unwrap_err().code, "invalid_terminal_size");
}

#[test]
fn checkpoints_are_told_in_base64() {
    let dto = TerminalCheckpointDto::from_proto(TerminalCheckpoint {
        format: "rmux_vt_state".into(),
        format_version: 1,
        sequence: u64::MAX,
        terminal_size: TerminalSize::default(),
        payload: b"state".to_vec(),
        input_prefix: vec![0xe6],
    });
    assert_eq!(dto.sequence, u64::MAX.to_string());
    assert_eq!(dto.payload_base64, "c3RhdGU=");
    assert_eq!(dto.input_prefix_base64, "5g==");
    assert_eq!(
        PresentationAcknowledgement::Output { sequence_end: 4 }.apply(),
        PresentationAck::Output { sequence_end: 4 }
    );
}

#[test]
fn requests_and_answers_are_translated() {
    assert_eq!(gui_identity("1.0").name, "rmux-gui");
    let sessions = listed_sessions(ServerMessage::SessionList { sessions: vec![session_info()] }).unwrap();
    assert_eq!(sessions[0].name, "large");
    let odd = created_session(ServerMessage::Success).unwrap_err();
    assert_eq!(odd.code, "unexpected_rmux_response");
    assert_eq!(odd.message, "expected session_created, received another response type");
    assert_eq!(succeeded(ServerMessage::Success), Ok(()));
    assert!(succeeded(ServerMessage::Detached).is_err());
    let size = TerminalSizeDto { columns: 80, rows: 24, pixel_width: None, pixel_height: None };
    let request = |working_directory: Option<&str>| CreateSessionRequestDto {
        name: None,
        working_directory: working_directory.map(str::to_owned),
        terminal_size: size,
    };
    match create_message(request(None), Ok("/home/me".into())).unwrap() {
        ClientMessage::CreateSession { working_directory, .. } => {
            assert_eq!(working_directory.as_deref(), Some("/home/me"))
        }
        _ => panic!("expected a session to create"),
    }
    match create_message(request(Some("/work")), Err(CommandErrorDto::new("x", "y"))).unwrap() {
        ClientMessage::CreateSession { working_directory, .. } => {
            assert_eq!(working_directory.as_deref(), Some("/work"))
        }
        _ => panic!("expected a session to create"),
    }
    let attach = attach_request(OpenAttachmentRequestDto {
        session: "work".into(),
        terminal_size: size,
        resume_from: Some("12".into()),
        request_input_lease: true,
        request_layout_lease: false,
    })
    .unwrap();
    assert_eq!(attach.resume_from, Some(12));
    assert_eq!(attach.terminal_size, size.into_proto().unwrap());
    assert!(attach.request_running_command);
    assert!(!attach.request_command_line);
}

#[test]
fn events_name_their_attachment() {
    match AttachmentEventDto::session_ended("a", "s".into(), Some(1)) {
        AttachmentEventDto::SessionEnded { attachment_id, session_id, exit_code } => {
            assert_eq!((attachment_id.as_str(), session_id.as_str(), exit_code), ("a", "s", Some(1)))
        }
        _ => panic!("expected the end of a session"),
    }
    match AttachmentEventDto::attachment_error("a", "code", "message") {
        AttachmentEventDto::AttachmentError { code, message, .. } => {
            assert_eq!((code.as_str(), message.as_str()), ("code", "message"))
        }
        _ => panic!("expected an error"),
    }
    match AttachmentEventDto::server_error("a", &ErrorCode::Internal, "odd".into()) {
        AttachmentEventDto::ServerError { code, .. } => assert_eq!(code, "internal"),
        _ => panic!("expected an error"),
    }
}
