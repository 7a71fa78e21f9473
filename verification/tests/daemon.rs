use rmux::attachment::{
    finish_attachment, process_attach_input, renews_attachment_liveness, AttachmentDriver,
    AttachmentExit, ClientReaction,
};
use rmux::child::build_command;
use rmux::delivery::{
    coalesce_output_chunks, geometry_event_is_stale, output_frame_charge, valid_presentation_window,
    LiveAttachment, Reaction, ReceivedEvent, MAX_OUTPUT_FRAME_BYTES, MAX_PRESENTATION_WINDOW_BYTES,
    MIN_OUTPUT_FRAME_CHARGE_BYTES,
};
use rmux::ipc::{
    LocalControlClientMessage, LocalControlErrorCode, LocalControlServerMessage,
    LOCAL_CONTROL_PROTOCOL_VERSION,
};
use rmux::journal::OutputChunk;
use rmux::manager::{SessionManager, SessionManagerError};
use rmux::proto::{
    ClientMessage, CommandLine, CommandSpec, ErrorCode, LeaseKind, LeaseStatus, PromptPhase,
    ServerMessage, ShellCapabilities, ShellDescriptor, ShellType, TerminalSize, PROTOCOL_VERSION,
};
use rmux::report::ShellReport;
use rmux::requests::{
    create_failed_reply, created_reply, handle_request, kill_reply, list_reply, open_attachment,
    prepare_attachment, prepare_attachment_as, prepare_resumed_attachment, shell_state_reply, Admission, AttachParameters,
    PreparedAttachment, RequestAction,
};
use rmux::server::{
    accept_handshake, after_bind, after_bind_probe, attachment_liveness, control_error,
    is_finished, restart_reply, session_manager_error, startup_expires, waits_for_first_use,
    AttachmentLiveness, BindFailure, BindStep, DaemonConfig, DaemonError, EndpointIdentity,
    LocalControlAction, LocalControlStage, RestartCoordinator, RestartCoordinatorError,
    RestartState, DAEMON_DRAINING_MESSAGE, LOCAL_CONTROL_ARMED_REQUEST_TIMEOUT,
    LOCAL_CONTROL_HANDSHAKE_TIMEOUT,
};
use rmux::session::{Session, SessionControlError, SessionEvent};

fn error(code: ErrorCode, message: &str) -> ServerMessage {
    ServerMessage::Error { code, message: message.to_owned() }
}

fn session() -> Session {
    Session::new(
        "id".to_owned(),
        "work".to_owned(),
        7,
        TerminalSize::default(),
        1 << 20,
        1 << 18,
        true,
    )
}

fn parameters() -> AttachParameters {
    AttachParameters {
        resume_from: None,
        client_terminal_size: TerminalSize::default(),
        request_input_lease: true,
        request_layout_lease: true,
        request_command_line: true,
        request_running_command: true,
        presentation_window_bytes: 262_144,
    }
}

fn attach(session: &mut Session, request: &AttachParameters) -> PreparedAttachment {
    match prepare_attachment(session, "work", request) {
        Admission::Admitted(prepared) => prepared,
        _ => panic!("the session admits attachments"),
    }
}

#[test]
fn armed_local_control_request_outlasts_gui_detach_window() {
    assert!(LOCAL_CONTROL_ARMED_REQUEST_TIMEOUT > 5_000);
}

#[test]
fn checkpoint_suppresses_queued_geometry_but_not_a_later_same_boundary_resize() {
    // A subscription starts before its initial snapshot. The first event was
    // already represented in that snapshot, even though it has the same raw
    // boundary as the later live transition.
    assert!(geometry_event_is_stale(Some(7), 42, 42, 7));
    assert!(!geometry_event_is_stale(Some(7), 42, 42, 8));

    // Once raw output has advanced beyond a transition, a queued older event
    // is also stale for an attachment that resumed without a checkpoint.
    assert!(geometry_event_is_stale(None, 43, 42, 8));
}

#[test]
fn fragmented_output_is_coalesced_into_a_bounded_frame() {
    let chunks = (0..512)
        .map(|sequence_start| OutputChunk {
            sequence_start,
            data: b"x".to_vec(),
        })
        .collect();

    let frame = coalesce_output_chunks(chunks, 0, MAX_OUTPUT_FRAME_BYTES)
        .expect("fragmented output produced a frame");

    assert_eq!(frame.sequence_start, 0);
    assert_eq!(frame.sequence_end(), 512);
    assert_eq!(frame.data, vec![b'x'; 512]);
    assert_eq!(
        output_frame_charge(frame.data.len(), 256 * 1024),
        MIN_OUTPUT_FRAME_CHARGE_BYTES
    );
}

#[test]
fn frames_stop_at_gaps_and_at_their_limit() {
    let chunks = || {
        vec![
            OutputChunk { sequence_start: 0, data: b"abc".to_vec() },
            OutputChunk { sequence_start: 3, data: b"def".to_vec() },
            OutputChunk { sequence_start: 9, data: b"xyz".to_vec() },
        ]
    };
    let frame = coalesce_output_chunks(chunks(), 1, 64).unwrap();
    assert_eq!((frame.sequence_start, frame.data), (1, b"bcdef".to_vec()));
    let frame = coalesce_output_chunks(chunks(), 1, 3).unwrap();
    assert_eq!((frame.sequence_start, frame.data), (1, b"bcd".to_vec()));
    assert_eq!(coalesce_output_chunks(chunks(), 6, 64), None);
    assert_eq!(coalesce_output_chunks(Vec::new(), 0, 64), None);
}

#[test]
fn small_windows_are_charged_as_a_whole() {
    assert_eq!(output_frame_charge(10, 100), 100);
    assert_eq!(output_frame_charge(5_000, 1 << 20), 5_000);
    assert!(!valid_presentation_window(0));
    assert!(valid_presentation_window(1));
    assert!(valid_presentation_window(MAX_PRESENTATION_WINDOW_BYTES));
    assert!(!valid_presentation_window(MAX_PRESENTATION_WINDOW_BYTES + 1));
}

#[test]
fn initial_delivery_defers_replay_until_presentation_credit() {
    let mut session = session();
    session.append_output(&vec![b'x'; 4 * 1024]);
    let request = AttachParameters { resume_from: Some(0), ..parameters() };
    let prepared = attach(&mut session, &request);
    let (attached, mut stream) = open_attachment(&session, &prepared, &request).unwrap();
    let ServerMessage::Attached { session: info, next_sequence, replay_from, checkpoint, .. } =
        attached
    else {
        panic!("expected attached response");
    };
    assert_eq!(info.next_sequence, 4096);
    assert_eq!(next_sequence, 4096);
    assert_eq!(replay_from, 0);
    assert_eq!(checkpoint, None);
    // The output itself follows in frames of their own.
    let frame = stream.next_output(&session).unwrap().unwrap();
    assert_eq!(
        frame,
        ServerMessage::Output { sequence_start: 0, sequence_end: 4096, data: vec![b'x'; 4096] }
    );
    assert_eq!(stream.next_output(&session), Ok(None));
}

#[test]
fn output_stops_when_the_window_is_full() {
    let mut session = session();
    session.append_output(&vec![b'x'; 10_000]);
    let mut stream = LiveAttachment::new(0, None, false, 0, 4_096, false, false);
    let first = stream.next_output(&session).unwrap().unwrap();
    assert!(matches!(first, ServerMessage::Output { sequence_start: 0, sequence_end: 4096, .. }));
    assert_eq!(stream.next_output(&session), Ok(None));
    assert_eq!(stream.accept_presentation_progress(4096), Ok(()));
    let second = stream.next_output(&session).unwrap().unwrap();
    assert!(matches!(second, ServerMessage::Output { sequence_start: 4096, sequence_end: 8192, .. }));
}

#[test]
fn confirmations_follow_what_was_sent() {
    let mut session = session();
    session.append_output(b"0123456789");
    let mut stream = LiveAttachment::new(0, None, false, 0, 1 << 20, false, false);
    stream.next_output(&session).unwrap().unwrap();
    assert!(stream.accept_presentation_progress(11).is_err());
    assert!(stream.accept_presentation_progress(5).is_err());
    assert_eq!(stream.accept_presentation_progress(10), Ok(()));
    assert!(stream.accept_presentation_progress(9).is_err());
}

#[test]
fn a_checkpoint_is_confirmed_before_output_follows() {
    let mut session = session();
    session.append_output(b"before");
    let request = parameters();
    let prepared = attach(&mut session, &request);
    let (attached, mut stream) = open_attachment(&session, &prepared, &request).unwrap();
    let ServerMessage::Attached { checkpoint, replay_from, .. } = attached else {
        panic!("expected attached response");
    };
    let checkpoint = checkpoint.unwrap();
    assert_eq!(checkpoint.sequence, replay_from);
    assert_eq!(stream.next_output(&session), Ok(None));
    assert_eq!(stream.accept_presentation_progress(replay_from), Ok(()));
    session.append_output(b"after");
    let mut seen = Vec::new();
    while let Some(ServerMessage::Output { data, .. }) = stream.next_output(&session).unwrap() {
        seen.extend_from_slice(&data);
    }
    let whole = b"beforeafter";
    assert_eq!(seen, &whole[replay_from as usize..]);
}

#[test]
fn geometry_changes_reach_viewers_once() {
    let mut session = session();
    let request = parameters();
    let prepared = attach(&mut session, &request);
    let id = prepared.registration.attachment_id.clone();
    let (_attached, mut stream) = open_attachment(&session, &prepared, &request).unwrap();
    let wide = TerminalSize { columns: 100, rows: 30, pixel_width: 0, pixel_height: 0 };
    let event = session.resize(&id, wide).unwrap().unwrap();
    assert_eq!(
        event,
        SessionEvent::PtyGeometryChanged {
            terminal_size: wide,
            observed_sequence: 0,
            geometry_revision: 1
        }
    );
    assert_eq!(session.resize(&id, wide), Ok(None));
    let reaction = stream.process_session_event(ReceivedEvent::Event(event), &session, &id);
    assert!(matches!(
        reaction,
        Reaction::Send(ServerMessage::PtyGeometryChanged { observed_sequence: 0, .. })
    ));
    let old = SessionEvent::PtyGeometryChanged {
        terminal_size: wide,
        observed_sequence: 0,
        geometry_revision: 1,
    };
    assert!(matches!(
        stream.process_session_event(ReceivedEvent::Event(old), &session, &id),
        Reaction::Nothing
    ));
    assert!(matches!(
        stream.process_session_event(ReceivedEvent::Event(SessionEvent::Output), &session, &id),
        Reaction::SendOutput
    ));
    assert!(matches!(
        stream.process_session_event(ReceivedEvent::Lagged, &session, &id),
        Reaction::Recover
    ));
    assert!(matches!(
        stream.process_session_event(ReceivedEvent::Closed, &session, &id),
        Reaction::Close
    ));
}

#[test]
fn every_client_with_a_token_of_its_own_is_admitted() {
    let mut session = session();
    let request = parameters();
    let join = |session: &mut Session, id: &str, token: &str| {
        prepare_attachment_as(session, "work", &request, id.to_owned(), token.to_owned())
    };
    match join(&mut session, "first", "one") {
        Admission::Admitted(prepared) => {
            assert_eq!(prepared.registration.attachment_id, "first");
            assert_eq!(prepared.registration.attachment_token, "one");
            assert!(prepared.registration.leases.input.owned_by_client);
        }
        _ => panic!("the session admits attachments"),
    }
    assert!(matches!(join(&mut session, "second", "one"), Admission::DrawAgain));
    match join(&mut session, "second", "two") {
        Admission::Admitted(prepared) => {
            assert!(prepared.registration.leases.input.held);
            assert!(!prepared.registration.leases.input.owned_by_client);
        }
        _ => panic!("the session admits attachments"),
    }
    let third = session.create_attachment(true, true).unwrap();
    assert_eq!(third.attachment_id.len(), 36);
    assert_eq!(third.attachment_token.len(), 32);
    assert!(!third.leases.layout.owned_by_client);
    session.publish_ended(None);
    assert!(matches!(join(&mut session, "fourth", "one"), Admission::Refused(_)));
}

#[test]
fn the_end_of_a_session_is_told() {
    let mut session = session();
    let request = parameters();
    let prepared = attach(&mut session, &request);
    let id = prepared.registration.attachment_id.clone();
    let (_attached, mut stream) = open_attachment(&session, &prepared, &request).unwrap();
    let publication = session.publish_ended(Some(3));
    let event = publication.event.unwrap();
    assert_eq!(event, SessionEvent::Ended { exit_code: Some(3) });
    match stream.process_session_event(ReceivedEvent::Event(event), &session, &id) {
        Reaction::End { ended, .. } => assert_eq!(
            ended,
            ServerMessage::SessionEnded { session_id: "id".to_owned(), exit_code: Some(3) }
        ),
        _ => panic!("the session has ended"),
    }
    match prepare_attachment(&mut session, "work", &request) {
        Admission::Refused(reply) => assert_eq!(
            reply,
            error(
                ErrorCode::SessionNotFound,
                "session 'work' has already ended (exit code Some(3))"
            )
        ),
        _ => panic!("an ended session admits nobody"),
    }
}

fn editing() -> ShellReport {
    ShellReport {
        shell: ShellDescriptor {
            shell_type: ShellType::Zsh,
            integration_version: Some(2),
            capabilities: ShellCapabilities {
                reports_cwd: true,
                reports_command_line: true,
                reports_cursor: true,
                reports_prompt_phase: true,
                reports_running_command: true,
            },
        },
        cwd: Some("/work".into()),
        prompt_phase: PromptPhase::Editing,
        current_command_line: Some(CommandLine {
            text: "secret".into(),
            cursor_scalar_offset: Some(6),
        }),
        running_command: None,
    }
}

#[test]
fn command_text_follows_the_input_lease() {
    let mut session = session();
    session.apply_shell_report(editing(), None);
    let owner = attach(&mut session, &parameters());
    let viewer = attach(&mut session, &parameters());
    assert_eq!(owner.registration.leases.input, LeaseStatus { held: true, owned_by_client: true });
    assert_eq!(viewer.registration.leases.input, LeaseStatus { held: true, owned_by_client: false });
    let seen = |session: &Session, prepared: &PreparedAttachment| {
        let id = &prepared.registration.attachment_id;
        session.shell_state_for_attachment(id, true, true).current_command_line.is_some()
    };
    assert!(seen(&session, &owner));
    assert!(!seen(&session, &viewer));
    match shell_state_reply(&session) {
        ServerMessage::ShellStateResponse { shell_state, .. } => {
            assert_eq!(shell_state.current_command_line, None);
            assert!(shell_state.command_line_redacted);
            assert_eq!(shell_state.cwd.as_deref(), Some("/work"));
        }
        _ => panic!("expected a shell state"),
    }

    let id = owner.registration.attachment_id.clone();
    let released = process_attach_input(
        &mut session,
        &id,
        true,
        ClientMessage::ReleaseLease { lease: LeaseKind::Input },
    );
    match released {
        ClientReaction::Lease { answer, published } => {
            assert_eq!(
                answer,
                ServerMessage::LeaseStatus {
                    lease: LeaseKind::Input,
                    status: LeaseStatus { held: false, owned_by_client: false }
                }
            );
            assert!(published.is_some());
        }
        _ => panic!("expected a lease status"),
    }
    assert!(!seen(&session, &owner));
}

#[test]
fn secondary_attachments_cannot_control_an_owned_session() {
    let mut session = session();
    let owner = attach(&mut session, &parameters());
    let viewer = attach(&mut session, &parameters());
    let id = viewer.registration.attachment_id.clone();
    let input = ClientMessage::Input { data: b"ls\n".to_vec() };
    assert!(matches!(
        process_attach_input(&mut session, &id, true, input),
        ClientReaction::Send(ServerMessage::Error { code: ErrorCode::InputLeaseRequired, .. })
    ));
    let resize = ClientMessage::Resize { terminal_size: TerminalSize::default() };
    assert!(matches!(
        process_attach_input(&mut session, &id, true, resize),
        ClientReaction::Send(ServerMessage::Error { code: ErrorCode::LayoutLeaseRequired, .. })
    ));
    let owner_id = owner.registration.attachment_id.clone();
    match process_attach_input(
        &mut session,
        &owner_id,
        true,
        ClientMessage::Input { data: b"ls\n".to_vec() },
    ) {
        ClientReaction::WriteInput(data) => assert_eq!(data, b"ls\n"),
        _ => panic!("the owner may type"),
    }
    assert!(matches!(
        process_attach_input(&mut session, &owner_id, true, ClientMessage::ListSessions),
        ClientReaction::Send(ServerMessage::Error { code: ErrorCode::InvalidRequest, .. })
    ));
}

#[test]
fn a_reconnect_token_keeps_both_leases() {
    let mut session = session();
    let first = attach(&mut session, &parameters());
    let token = first.registration.attachment_token.clone();
    assert_eq!(token.len(), 32);
    assert!(finish_attachment(&mut session, &token, 0, true, AttachmentExit::Disconnected));
    let again = prepare_resumed_attachment(&mut session, "work", &token).unwrap();
    assert!(again.resumed);
    assert_eq!(again.registration.generation, 1);
    assert_eq!(again.registration.attachment_id, first.registration.attachment_id);
    assert!(again.registration.leases.input.owned_by_client);
    assert!(again.registration.leases.layout.owned_by_client);
    // The grace of the replaced transport releases nothing.
    session.expire_attachment(&token, 0);
    assert!(session.owns_input_lease(&again.registration.attachment_id));
    assert!(finish_attachment(&mut session, &token, 1, true, AttachmentExit::Disconnected));
    session.expire_attachment(&token, 1);
    assert!(!session.owns_input_lease(&again.registration.attachment_id));
    assert_eq!(
        prepare_resumed_attachment(&mut session, "work", &token),
        Err(error(
            ErrorCode::AttachmentResumeRejected,
            "the attachment reconnect token is invalid or expired"
        ))
    );
}

#[test]
fn a_detached_client_gives_its_leases_up_at_once() {
    let mut session = session();
    let first = attach(&mut session, &parameters());
    let token = first.registration.attachment_token.clone();
    assert!(!finish_attachment(&mut session, &token, 0, true, AttachmentExit::Detached));
    let second = attach(&mut session, &parameters());
    assert!(second.registration.leases.input.owned_by_client);
    assert!(second.applies_initial_resize());
}

#[test]
fn heartbeats_renew_an_attachment_until_its_deadline() {
    let mut session = session();
    let request = parameters();
    let prepared = attach(&mut session, &request);
    let (_attached, stream) = open_attachment(&session, &prepared, &request).unwrap();
    let mut driver = AttachmentDriver {
        attachment: stream,
        attachment_id: prepared.registration.attachment_id.clone(),
        attachment_liveness_timeout: 1_000,
        deadline: 1_000,
    };
    let beat = |nonce: u64| ClientMessage::Heartbeat { nonce };
    match driver.process_client_message(&mut session, beat(4), 900) {
        ClientReaction::Send(reply) => {
            assert_eq!(reply, ServerMessage::HeartbeatAck { nonce: 4 })
        }
        _ => panic!("expected an acknowledgement"),
    }
    assert_eq!(driver.deadline, 1_900);
    assert!(matches!(
        driver.process_client_message(&mut session, beat(5), 1_900),
        ClientReaction::Expire
    ));
    assert!(renews_attachment_liveness(&beat(1)));
    assert!(!renews_attachment_liveness(&ClientMessage::ListSessions));
}

#[test]
fn a_client_ahead_of_the_session_is_refused() {
    let mut session = session();
    let request = AttachParameters { resume_from: Some(1), ..parameters() };
    let prepared = attach(&mut session, &request);
    assert_eq!(
        open_attachment(&session, &prepared, &request).map(|_| ()),
        Err(error(
            ErrorCode::SequenceAhead,
            "requested sequence 1 is ahead of the next sequence 0"
        ))
    );
}

fn create(name: Option<&str>) -> ClientMessage {
    ClientMessage::CreateSession {
        name: name.map(str::to_owned),
        command: None,
        working_directory: None,
        terminal_size: TerminalSize::default(),
    }
}

fn attach_message(session: &str, window: u64) -> ClientMessage {
    ClientMessage::AttachSession {
        session: session.to_owned(),
        resume_from: None,
        terminal_size: TerminalSize::default(),
        request_input_lease: true,
        request_layout_lease: true,
        request_command_line: false,
        request_running_command: false,
        presentation_window_bytes: window,
    }
}

#[test]
fn requests_are_decided_by_session() {
    let mut manager = SessionManager::new(1024, 256);
    let open = RestartCoordinator::new();
    let pending = match handle_request(&mut manager, &open, create(Some("work"))) {
        RequestAction::Create { pending, .. } => pending,
        _ => panic!("expected a session to create"),
    };
    assert!(matches!(
        handle_request(&mut manager, &open, create(Some("work"))),
        RequestAction::Reply(ServerMessage::Error { code: ErrorCode::SessionAlreadyExists, .. })
    ));
    assert!(matches!(
        handle_request(&mut manager, &open, create(Some("not ok"))),
        RequestAction::Reply(ServerMessage::Error { code: ErrorCode::InvalidSessionName, .. })
    ));
    let id = pending.session_id.clone();
    let session = manager.finish_create(pending, 5, TerminalSize::default(), false);
    match created_reply(&session) {
        ServerMessage::SessionCreated { session } => assert_eq!(session.name, "work"),
        _ => panic!("expected the created session"),
    }
    match handle_request(&mut manager, &open, attach_message("work", 1024)) {
        RequestAction::Attach { session_id, selector, .. } => {
            assert_eq!(session_id, id);
            assert_eq!(selector, "work");
        }
        _ => panic!("expected an attachment"),
    }
    assert!(matches!(
        handle_request(&mut manager, &open, ClientMessage::ListSessions),
        RequestAction::List
    ));
    match handle_request(&mut manager, &open, attach_message("work", 0)) {
        RequestAction::Reply(reply) => assert_eq!(
            reply,
            error(
                ErrorCode::InvalidRequest,
                "presentation_window_bytes must be between 1 and 8388608"
            )
        ),
        _ => panic!("a client must grant a window"),
    }
    match handle_request(
        &mut manager,
        &open,
        ClientMessage::KillSession { session: "none".to_owned() },
    ) {
        RequestAction::Reply(reply) => {
            assert_eq!(reply, error(ErrorCode::SessionNotFound, "session 'none' was not found"))
        }
        _ => panic!("there is no such session"),
    }
    assert!(matches!(
        handle_request(&mut manager, &open, ClientMessage::Detach),
        RequestAction::Reply(ServerMessage::Error { code: ErrorCode::InvalidRequest, .. })
    ));
    assert_eq!(
        list_reply(vec![session.info()]),
        ServerMessage::SessionList { sessions: vec![session.info()] }
    );
    assert_eq!(kill_reply(Ok(())), ServerMessage::Success);
}

#[test]
fn a_draining_daemon_admits_nothing_new() {
    let mut manager = SessionManager::new(1024, 256);
    let mut restart = RestartCoordinator::new();
    let mut stage = LocalControlStage::AwaitingHandshake;
    assert_eq!(stage.timeout(), LOCAL_CONTROL_HANDSHAKE_TIMEOUT);
    assert_eq!(
        stage.receive(
            LocalControlClientMessage::Handshake {
                protocol_version: LOCAL_CONTROL_PROTOCOL_VERSION
            },
            &mut restart,
            &manager
        ),
        LocalControlAction::Reply(LocalControlServerMessage::HandshakeAccepted {
            protocol_version: LOCAL_CONTROL_PROTOCOL_VERSION,
            restart_supported: true
        })
    );
    assert_eq!(stage.timeout(), LOCAL_CONTROL_ARMED_REQUEST_TIMEOUT);
    assert_eq!(
        stage.receive(LocalControlClientMessage::RestartDaemon, &mut restart, &manager),
        LocalControlAction::Terminate(Vec::new())
    );
    assert!(restart.is_draining());
    for request in [create(None), attach_message("work", 1024)] {
        match handle_request(&mut manager, &restart, request) {
            RequestAction::Reply(reply) => {
                assert_eq!(reply, error(ErrorCode::InvalidRequest, DAEMON_DRAINING_MESSAGE))
            }
            _ => panic!("a draining daemon admits nothing"),
        }
    }
    assert_eq!(
        restart_reply(&mut restart, 0, None),
        LocalControlServerMessage::RestartAccepted { terminated_sessions: 0 }
    );
    restart.cancel_other_connections();
    assert!(restart.connections_cancelled);
    assert!(is_finished(false, restart.is_draining(), 0, 0));
}

#[test]
fn a_restart_needs_a_handshake_and_happens_once() {
    let manager = SessionManager::new(1024, 256);
    let mut restart = RestartCoordinator::new();
    let mut stage = LocalControlStage::AwaitingHandshake;
    assert!(matches!(
        stage.receive(LocalControlClientMessage::RestartDaemon, &mut restart, &manager),
        LocalControlAction::Finish(LocalControlServerMessage::Error {
            code: LocalControlErrorCode::InvalidRequest,
            ..
        })
    ));
    assert!(!restart.is_draining());
    let mut stage = LocalControlStage::AwaitingHandshake;
    assert_eq!(
        stage.receive(
            LocalControlClientMessage::Handshake { protocol_version: 9 },
            &mut restart,
            &manager
        ),
        LocalControlAction::Finish(LocalControlServerMessage::Error {
            code: LocalControlErrorCode::ProtocolVersionMismatch,
            message: "local-control client requested version 9; this daemon supports 1".to_owned()
        })
    );
    assert_eq!(restart.begin_cooperative_restart(&manager), Ok(Vec::new()));
    assert_eq!(
        restart.begin_cooperative_restart(&manager),
        Err(RestartCoordinatorError::AlreadyDraining)
    );
    let mut stage = LocalControlStage::Armed;
    assert!(matches!(
        stage.receive(LocalControlClientMessage::RestartDaemon, &mut restart, &manager),
        LocalControlAction::Finish(LocalControlServerMessage::Error {
            code: LocalControlErrorCode::RestartInProgress,
            ..
        })
    ));
}

#[test]
fn a_failed_restart_admits_work_again() {
    let manager = SessionManager::new(1024, 256);
    let mut restart = RestartCoordinator::new();
    restart.begin_cooperative_restart(&manager).unwrap();
    assert_eq!(
        restart_reply(&mut restart, 2, Some(SessionControlError::Io("gone".to_owned()))),
        LocalControlServerMessage::Error {
            code: LocalControlErrorCode::Internal,
            message: format!(
                "could not terminate a session during cooperative restart: {}",
                SessionControlError::Io("gone".to_owned()).message()
            )
        }
    );
    assert_eq!(restart.state, RestartState::Accepting);
}

#[test]
fn sessions_end_with_a_restart() {
    let mut manager = SessionManager::new(1024, 256);
    let pending = manager.begin_create(None).unwrap();
    let id = pending.session_id.clone();
    let _session = manager.finish_create(pending, 1, TerminalSize::default(), false);
    let mut restart = RestartCoordinator::new();
    assert_eq!(restart.begin_cooperative_restart(&manager), Ok(vec![id]));
}

#[test]
fn handshakes_agree_on_the_version() {
    let liveness = attachment_liveness(30_000).unwrap();
    assert_eq!(liveness, AttachmentLiveness { timeout_ms: 30_000, heartbeat_interval_ms: 10_000 });
    let handshake = |protocol_version: u16| ClientMessage::Handshake {
        protocol_version,
        client_name: "rmux".to_owned(),
        client_version: "1".to_owned(),
    };
    assert_eq!(
        accept_handshake(&handshake(PROTOCOL_VERSION), liveness, "0.1.0"),
        Ok(ServerMessage::HandshakeAccepted {
            protocol_version: 7,
            server_version: "0.1.0".to_owned(),
            heartbeat_interval_ms: 10_000,
            attachment_liveness_timeout_ms: 30_000
        })
    );
    assert_eq!(
        accept_handshake(&handshake(6), liveness, "0.1.0"),
        Err(error(
            ErrorCode::ProtocolVersionMismatch,
            "client requested protocol version 6; this daemon supports 7"
        ))
    );
    assert_eq!(
        accept_handshake(&ClientMessage::ListSessions, liveness, "0.1.0"),
        Err(error(ErrorCode::InvalidRequest, "the first message must be a handshake"))
    );
}

#[test]
fn liveness_terms_are_bounded() {
    assert!(attachment_liveness(100).is_ok());
    assert!(attachment_liveness(300_000).is_ok());
    let refused = attachment_liveness(99).unwrap_err();
    assert_eq!(
        refused,
        DaemonError::InvalidAttachmentLivenessTimeout { actual: 99, minimum: 100, maximum: 300_000 }
    );
    assert_eq!(
        refused.message(),
        "attachment liveness timeout 99ms must be between 100ms and 300s"
    );
}

#[test]
fn daemon_errors_are_explained() {
    assert_eq!(
        DaemonError::RuntimeDirectory("x".to_owned()).message(),
        "could not prepare the runtime directory: x"
    );
    assert_eq!(
        DaemonError::AlreadyRunning("/s".to_owned()).message(),
        "another rmuxd is already listening at /s"
    );
    assert_eq!(
        DaemonError::Bind { path: "/s".to_owned(), source: "x".to_owned() }.message(),
        "could not bind local socket /s: x"
    );
    assert_eq!(
        DaemonError::ControlSocketPath { path: "/s".to_owned(), source: "x".to_owned() }.message(),
        "could not derive local-control socket from /s: x"
    );
    assert_eq!(DaemonError::Io("x".to_owned()).message(), "daemon I/O error: x");
    assert_eq!(
        DaemonError::EndpointStartupLock { path: "/l".to_owned(), source: "x".to_owned() }.message(),
        "could not lock local endpoint startup at /l: x"
    );
}

#[test]
fn a_daemon_ends_when_nothing_is_left() {
    assert!(!is_finished(false, false, 0, 0));
    assert!(is_finished(true, false, 0, 0));
    assert!(!is_finished(true, false, 1, 0));
    assert!(!is_finished(true, false, 0, 1));
    assert!(startup_expires(0, 0));
    assert!(!startup_expires(1, 0));
    assert!(!startup_expires(0, 1));
}

#[test]
fn a_daemon_keeps_four_mebibytes_of_output() {
    let config = DaemonConfig::serving("/s".to_owned());
    assert_eq!(config.journal_capacity_bytes, 4 * 1024 * 1024);
    assert_eq!(config.checkpoint_interval_bytes, 256 * 1024);
    assert_eq!(config.startup_idle_timeout, 10_000);
    assert_eq!(config.attachment_liveness_timeout, 30_000);
}

#[test]
fn errors_carry_the_protocol_code() {
    assert_eq!(
        session_manager_error(&SessionManagerError::Spawn("no shell".to_owned())),
        error(ErrorCode::Internal, "could not spawn child process: no shell")
    );
    assert!(matches!(
        session_manager_error(&SessionManagerError::InvalidView("odd".to_owned())),
        ServerMessage::Error { code: ErrorCode::InvalidRequest, .. }
    ));
    assert!(matches!(
        control_error(&SessionControlError::InputLeaseRequired),
        ServerMessage::Error { code: ErrorCode::InputLeaseRequired, .. }
    ));
    assert!(matches!(
        control_error(&SessionControlError::LayoutLeaseRequired),
        ServerMessage::Error { code: ErrorCode::LayoutLeaseRequired, .. }
    ));
    assert!(matches!(
        control_error(&SessionControlError::Pty("x".to_owned())),
        ServerMessage::Error { code: ErrorCode::Internal, .. }
    ));
}

#[test]
fn a_session_that_did_not_come_to_be_frees_its_name() {
    let mut manager = SessionManager::new(1024, 256);
    let pending = manager.begin_create(Some("work".to_owned())).unwrap();
    let reply =
        create_failed_reply(&mut manager, pending, SessionManagerError::Pty("none".to_owned()));
    assert_eq!(reply, error(ErrorCode::Internal, "could not create PTY: none"));
    assert!(manager.begin_create(Some("work".to_owned())).is_ok());
}

#[test]
fn a_child_finds_its_terminal_and_its_pipe() {
    let child = build_command(
        Some(CommandSpec { program: "top".to_owned(), arguments: vec!["-d".to_owned()] }),
        Some("/work".to_owned()),
        Some("/run/pipe".to_owned()),
    );
    assert_eq!(child.program.as_deref(), Some("top"));
    assert_eq!(child.arguments, vec!["-d"]);
    assert_eq!(child.working_directory.as_deref(), Some("/work"));
    assert_eq!(
        child.environment,
        vec![
            ("TERM".to_owned(), "xterm-256color".to_owned()),
            ("RMUX_SHELL_STATE_PIPE".to_owned(), "/run/pipe".to_owned()),
        ]
    );
    let shell = build_command(None, None, None);
    assert_eq!(shell.program, None);
    assert_eq!(shell.environment.len(), 1);
}

#[test]
fn sessions_observe_processes_only_while_asked_to() {
    let mut session = Session::new(
        "id".to_owned(),
        "quiet".to_owned(),
        0,
        TerminalSize::default(),
        1024,
        256,
        false,
    );
    assert!(!session.process_observation_enabled());
    assert_eq!(session.apply_process_observation(None, None), None);
    assert!(session.has_room(4096));
}

#[test]
fn a_daemon_replaces_only_what_nobody_serves() {
    let failure = |address_in_use| BindFailure { address_in_use, message: "in use".to_owned() };
    assert_eq!(after_bind("/s", Ok(()), false), BindStep::Secure);
    assert_eq!(after_bind("/s", Err(failure(true)), false), BindStep::Probe);
    let refused = DaemonError::Bind { path: "/s".to_owned(), source: "in use".to_owned() };
    assert_eq!(after_bind("/s", Err(failure(true)), true), BindStep::Fail(refused));
    assert!(matches!(after_bind("/s", Err(failure(false)), false), BindStep::Fail(_)));
    assert_eq!(after_bind_probe("/s", false), BindStep::Replace);
    assert_eq!(
        after_bind_probe("/s", true),
        BindStep::Fail(DaemonError::AlreadyRunning("/s".to_owned()))
    );
}

#[test]
fn a_daemon_removes_only_its_own_endpoint() {
    let own = EndpointIdentity { device: 1, inode: 2 };
    assert!(own.may_be_removed(Some(EndpointIdentity { device: 1, inode: 2 })));
    assert!(!own.may_be_removed(Some(EndpointIdentity { device: 1, inode: 3 })));
    assert!(!own.may_be_removed(None));
    assert!(waits_for_first_use(false, false));
    assert!(!waits_for_first_use(true, false));
    assert!(!waits_for_first_use(false, true));
}

#[test]
fn shell_states_reach_clients_that_lag() {
    let mut session = session();
    let request = parameters();
    let prepared = attach(&mut session, &request);
    let id = prepared.registration.attachment_id.clone();
    let (_attached, mut stream) = open_attachment(&session, &prepared, &request).unwrap();
    let changed = session.apply_shell_report(editing(), None).unwrap();
    match stream.process_shell_state_update(changed.clone(), &session, &id) {
        Some(ServerMessage::ShellStateChanged { state }) => {
            assert_eq!(state.current_command_line.unwrap().text, "secret")
        }
        _ => panic!("expected the changed state"),
    }
    // The same revision is not told twice, unless the client has to recover.
    assert_eq!(stream.process_shell_state_update(changed, &session, &id), None);
    assert!(matches!(
        stream.recovered_shell_state(&session, &id),
        ServerMessage::ShellStateChanged { .. }
    ));
}
