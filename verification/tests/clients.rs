use rmux::client::{
    attach_message, attachment_liveness, begin_attach, get_shell_state, handshake,
    handshake_message, read_response, resume_message, shell_state_message, AttachRequest, AttachedSession,
    AttachmentAcknowledgementError, AttachmentCommandError, AttachmentLiveness, ClientError,
    ClientIdentity, HandshakeInfo, ShellStateCache,
};
use rmux::controller::{
    command_message, peer_is_silent, AttachExitReason, AttachmentCommand, AttachmentController,
    AttachmentControllerOptions, AttachmentEvent, AttachmentWriter, ControllerAction,
    PresentationAck,
};
use rmux::presenter::{
    controller_options as interactive_options, current_terminal_size, lease_name,
    present_event, report_attachment, restore_checkpoint, split_typed_input,
    terminal_grid_matches, InteractiveAttachOptions, ViewOnlyNotice,
};
use rmux::proto::{
    ClientMessage, ErrorCode, LeaseKind, LeaseStatus, ServerMessage, SessionInfo, SessionStatus,
    ShellState, TerminalCheckpoint, TerminalSize, PROTOCOL_VERSION,
};
use rmux::text::exit_text;

fn controller_options() -> AttachmentControllerOptions {
    AttachmentControllerOptions {
        presentation_backpressure_timeout: 1_000,
        ..AttachmentControllerOptions::default()
    }
}

fn attached_session(
    replay_from: u64,
    checkpoint: Option<TerminalCheckpoint>,
    shell_state: ShellState,
) -> AttachedSession {
    AttachedSession {
        attachment_token: "token".into(),
        session: session_info(),
        replay_from,
        history_gap: false,
        checkpoint,
        terminal_size_mismatch: false,
        input_lease: LeaseStatus { held: false, owned_by_client: false },
        layout_lease: LeaseStatus { held: false, owned_by_client: false },
        shell_state,
        liveness: AttachmentLiveness { heartbeat_interval: 60_000, peer_timeout: 180_000 },
    }
}

fn checkpoint(sequence: u64) -> TerminalCheckpoint {
    TerminalCheckpoint {
        format: "rmux_vt_state".into(),
        format_version: 1,
        sequence,
        terminal_size: TerminalSize::default(),
        payload: Vec::new(),
        input_prefix: Vec::new(),
    }
}

fn session_info() -> SessionInfo {
    SessionInfo {
        session_id: "session-id".into(),
        name: "work".into(),
        status: SessionStatus::Running,
        created_at_ms: 0,
        next_sequence: 0,
        terminal_size: TerminalSize::default(),
    }
}

fn shell_state(revision: u64, cwd: &str) -> ShellState {
    ShellState {
        revision,
        cwd: Some(cwd.into()),
        ..ShellState::default()
    }
}

fn output(sequence_start: u64, data: &[u8]) -> ServerMessage {
    ServerMessage::Output {
        sequence_start,
        sequence_end: sequence_start + data.len() as u64,
        data: data.to_vec(),
    }
}

fn emitted(controller: &mut AttachmentController, message: ServerMessage) -> AttachmentEvent {
    match controller.process_server_message(message).unwrap() {
        ControllerAction::Emit(event) => event,
        _ => panic!("expected an event"),
    }
}

fn started(attached: &AttachedSession, options: AttachmentControllerOptions) -> AttachmentController {
    let mut controller = AttachmentController::new(attached, options).unwrap();
    assert_eq!(controller.start(), None);
    controller
}

#[test]
fn shell_state_cache_applies_only_newer_revisions() {
    let mut cache = ShellStateCache::new(shell_state(4, "/before"));

    assert!(!cache.apply_if_newer(shell_state(3, "/older")));
    assert!(!cache.apply_if_newer(shell_state(4, "/same")));
    assert_eq!(cache.snapshot(), shell_state(4, "/before"));

    assert!(cache.apply_if_newer(shell_state(5, "/after")));
    assert_eq!(cache.snapshot(), shell_state(5, "/after"));
}

#[test]
fn an_attach_answer_is_taken_over() {
    let identity = ClientIdentity { name: "test-client".into(), version: "test".into() };
    assert_eq!(
        handshake_message(&identity),
        ClientMessage::Handshake {
            protocol_version: PROTOCOL_VERSION,
            client_name: "test-client".into(),
            client_version: "test".into()
        }
    );
    let info = handshake(ServerMessage::HandshakeAccepted {
        protocol_version: PROTOCOL_VERSION,
        server_version: "test".into(),
        heartbeat_interval_ms: 1_000,
        attachment_liveness_timeout_ms: 3_000,
    })
    .unwrap();
    let request = || AttachRequest {
        session: "work".into(),
        resume_from: Some(12),
        terminal_size: TerminalSize::default(),
        request_input_lease: true,
        request_layout_lease: false,
        request_command_line: true,
        request_running_command: false,
        presentation_window_bytes: 1024,
    };
    assert!(matches!(
        attach_message(request()),
        ClientMessage::AttachSession {
            request_input_lease: true,
            request_layout_lease: false,
            request_command_line: true,
            resume_from: Some(12),
            ..
        }
    ));
    assert!(matches!(
        resume_message("token".into(), request()),
        ClientMessage::ResumeAttachment { resume_from: Some(12), presentation_window_bytes: 1024, .. }
    ));
    let attached = begin_attach(
        ServerMessage::Attached {
            attachment_token: "token".into(),
            session: session_info(),
            earliest_sequence: 0,
            next_sequence: 0,
            replay_from: 0,
            history_gap: false,
            checkpoint: None,
            history: None,
            terminal_size_mismatch: false,
            input_lease: LeaseStatus { held: true, owned_by_client: true },
            layout_lease: LeaseStatus { held: false, owned_by_client: false },
            shell_state: shell_state(4, "/workspace"),
        },
        info,
    )
    .unwrap();
    assert_eq!(attached.session.name, "work");
    assert!(attached.input_lease.owned_by_client);
    assert_eq!(attached.shell_state, shell_state(4, "/workspace"));
    assert_eq!(attached.shell_state_cache().snapshot(), shell_state(4, "/workspace"));
    assert_eq!(attached.liveness.heartbeat_interval, 1_000);
    assert_eq!(attached.liveness.peer_timeout, 3_000);
    assert!(matches!(
        begin_attach(ServerMessage::Success, info),
        Err(ClientError::UnexpectedResponse { .. })
    ));
}

#[test]
fn get_shell_state_uses_a_one_shot_request() {
    let identity = ClientIdentity { name: "test-client".into(), version: "test".into() };
    assert!(matches!(
        handshake_message(&identity),
        ClientMessage::Handshake { protocol_version: PROTOCOL_VERSION, .. }
    ));
    assert!(handshake(ServerMessage::HandshakeAccepted {
        protocol_version: PROTOCOL_VERSION,
        server_version: "test".into(),
        heartbeat_interval_ms: 1_000,
        attachment_liveness_timeout_ms: 3_000,
    })
    .is_ok());
    assert!(matches!(
        shell_state_message("work".into()),
        ClientMessage::GetShellState { ref session } if session == "work"
    ));
    let snapshot = get_shell_state(ServerMessage::ShellStateResponse {
        session: session_info(),
        shell_state: shell_state(7, "/project"),
    })
    .unwrap();
    assert_eq!(snapshot.session.name, "work");
    assert_eq!(snapshot.shell_state, shell_state(7, "/project"));
    assert!(get_shell_state(ServerMessage::Detached).is_err());
}

#[test]
fn answers_end_or_refuse() {
    assert_eq!(read_response(None), Err(ClientError::UnexpectedEof));
    assert_eq!(
        read_response(Some(ServerMessage::Error {
            code: ErrorCode::SessionNotFound,
            message: "gone".into()
        })),
        Err(ClientError::Server { code: ErrorCode::SessionNotFound, message: "gone".into() })
    );
    assert_eq!(read_response(Some(ServerMessage::Success)), Ok(ServerMessage::Success));
}

#[test]
fn liveness_terms_make_sense() {
    assert_eq!(
        attachment_liveness(10, 30),
        Ok(AttachmentLiveness { heartbeat_interval: 10, peer_timeout: 30 })
    );
    for (interval, timeout) in [(0, 30), (30, 30), (31, 30), (10, 0)] {
        assert!(matches!(
            attachment_liveness(interval, timeout),
            Err(ClientError::InvalidAttachmentLiveness { .. })
        ));
    }
    assert!(!peer_is_silent(100, 129, 30));
    assert!(peer_is_silent(100, 130, 30));
}

#[test]
fn shell_state_updates_do_not_advance_renderer_resume_sequence() {
    let attached = attached_session(73, None, shell_state(4, "/before"));
    let mut controller = started(&attached, controller_options());
    let event = emitted(
        &mut controller,
        ServerMessage::ShellStateChanged { state: shell_state(5, "/after") },
    );
    assert_eq!(event, AttachmentEvent::ShellStateChanged { state: shell_state(5, "/after") });
    assert_eq!(controller.state().received_sequence(), 73);
    assert_eq!(controller.state().resume_sequence(), Some(73));
    assert_eq!(controller.state().shell_state(), shell_state(5, "/after"));

    let exit = controller.finish(AttachExitReason::ConnectionClosed);
    assert_eq!(exit.reason, AttachExitReason::ConnectionClosed);
    assert_eq!(exit.next_sequence, Some(73));
    assert_eq!(exit.received_sequence, 73);
}

#[test]
fn controller_uses_only_renderer_acknowledged_output_for_resume() {
    let attached = attached_session(0, None, ShellState::default());
    let mut controller = started(&attached, controller_options());
    assert_eq!(
        emitted(&mut controller, output(0, b"abc")),
        AttachmentEvent::Output { sequence_start: 0, sequence_end: 3, data: b"abc".to_vec() }
    );
    assert_eq!(controller.state().received_sequence(), 3);
    assert_eq!(controller.state().resume_sequence(), Some(0));
    assert_eq!(
        controller.accept_presentation_acknowledgement(PresentationAck::Output { sequence_end: 3 }),
        Ok(Some(3))
    );
    assert_eq!(controller.state().resume_sequence(), Some(3));
    let exit = controller.finish(AttachExitReason::ConnectionClosed);
    assert_eq!(exit.next_sequence, Some(3));
    assert_eq!(exit.received_sequence, 3);
}

#[test]
fn recovery_checkpoint_invalidates_resume_until_renderer_acknowledges_it() {
    let attached = attached_session(0, None, ShellState::default());
    let mut controller = started(&attached, controller_options());
    emitted(&mut controller, output(0, b"abc"));
    controller
        .accept_presentation_acknowledgement(PresentationAck::Output { sequence_end: 3 })
        .unwrap();
    assert_eq!(controller.state().resume_sequence(), Some(3));

    assert_eq!(
        emitted(
            &mut controller,
            ServerMessage::Checkpoint {
                checkpoint: checkpoint(10),
                history: None,
                history_gap: true
            }
        ),
        AttachmentEvent::Checkpoint { checkpoint: checkpoint(10), history_gap: true }
    );
    assert_eq!(controller.state().received_sequence(), 10);
    assert_eq!(controller.state().resume_sequence(), None);
    controller
        .accept_presentation_acknowledgement(PresentationAck::Checkpoint { sequence: 10 })
        .unwrap();
    assert_eq!(controller.state().resume_sequence(), Some(10));
}

fn geometry(observed_sequence: u64) -> ServerMessage {
    ServerMessage::PtyGeometryChanged {
        terminal_size: TerminalSize { columns: 132, rows: 48, pixel_width: 0, pixel_height: 0 },
        observed_sequence,
    }
}

#[test]
fn geometry_acknowledgement_preserves_order_without_advancing_raw_resume() {
    let attached = attached_session(0, None, ShellState::default());
    let mut controller = started(&attached, controller_options());
    assert!(matches!(
        emitted(&mut controller, geometry(0)),
        AttachmentEvent::PtyGeometryChanged { observed_sequence: 0, .. }
    ));
    emitted(&mut controller, output(0, b"abc"));
    assert_eq!(controller.state().terminal_size().columns, 132);
    controller
        .accept_presentation_acknowledgement(PresentationAck::Geometry { observed_sequence: 0 })
        .unwrap();
    assert_eq!(controller.state().resume_sequence(), Some(0));
    controller
        .accept_presentation_acknowledgement(PresentationAck::Output { sequence_end: 3 })
        .unwrap();
    assert_eq!(controller.state().resume_sequence(), Some(3));
}

#[test]
fn incompatible_geometry_keeps_resume_empty_after_later_output() {
    let attached = attached_session(0, None, ShellState::default());
    let mut controller = started(&attached, controller_options());
    emitted(&mut controller, geometry(0));
    emitted(&mut controller, output(0, b"abc"));
    controller
        .accept_presentation_acknowledgement(PresentationAck::GeometryIncompatible {
            observed_sequence: 0,
        })
        .unwrap();
    assert_eq!(controller.state().resume_sequence(), None);
    controller
        .accept_presentation_acknowledgement(PresentationAck::Output { sequence_end: 3 })
        .unwrap();
    assert_eq!(controller.state().resume_sequence(), None);
    let exit = controller.finish(AttachExitReason::ConnectionClosed);
    assert_eq!(exit.next_sequence, None);
    assert_eq!(exit.received_sequence, 3);
}

#[test]
fn incompatible_initial_grid_requires_a_compatible_checkpoint_before_resume() {
    let attached = attached_session(0, None, ShellState::default());
    let options =
        AttachmentControllerOptions { renderer_starts_compatible: false, ..controller_options() };
    let mut controller = started(&attached, options);
    assert_eq!(controller.state().resume_sequence(), None);
    emitted(&mut controller, output(0, b"abc"));
    controller
        .accept_presentation_acknowledgement(PresentationAck::Output { sequence_end: 3 })
        .unwrap();
    assert_eq!(controller.state().resume_sequence(), None);
    let again = || ServerMessage::Checkpoint {
        checkpoint: checkpoint(3),
        history: None,
        history_gap: false,
    };
    emitted(&mut controller, again());
    controller
        .accept_presentation_acknowledgement(PresentationAck::CheckpointIncompatible {
            sequence: 3,
        })
        .unwrap();
    assert_eq!(controller.state().resume_sequence(), None);
    emitted(&mut controller, again());
    controller
        .accept_presentation_acknowledgement(PresentationAck::Checkpoint { sequence: 3 })
        .unwrap();
    assert_eq!(controller.state().resume_sequence(), Some(3));
}

#[test]
fn acknowledgement_ledger_is_bounded_when_events_are_not_acknowledged() {
    let attached = attached_session(0, None, ShellState::default());
    let options = AttachmentControllerOptions { event_queue_capacity: 1, ..controller_options() };
    let mut controller = started(&attached, options);
    emitted(&mut controller, output(0, b"a"));
    emitted(&mut controller, output(1, b"b"));
    assert_eq!(
        controller.process_server_message(output(2, b"c")),
        Ok(ControllerAction::Exit { reason: AttachExitReason::ConnectionClosed })
    );
    let exit = controller.finish(AttachExitReason::ConnectionClosed);
    assert_eq!(exit.next_sequence, Some(0));
}

#[test]
fn an_initial_checkpoint_is_presented_first() {
    let attached = attached_session(5, Some(checkpoint(5)), ShellState::default());
    let mut controller = AttachmentController::new(&attached, controller_options()).unwrap();
    assert_eq!(
        controller.start(),
        Some(AttachmentEvent::Checkpoint { checkpoint: checkpoint(5), history_gap: false })
    );
    assert_eq!(controller.state().resume_sequence(), None);
    assert_eq!(
        controller.accept_presentation_acknowledgement(PresentationAck::Checkpoint { sequence: 5 }),
        Ok(Some(5))
    );
    assert_eq!(controller.state().next_sequence(), Some(5));
}

#[test]
fn unusable_setups_are_refused() {
    let attached = attached_session(0, None, ShellState::default());
    let refused = |options| AttachmentController::new(&attached, options).map(|_| ()).unwrap_err();
    assert!(matches!(
        refused(AttachmentControllerOptions { command_queue_capacity: 0, ..controller_options() }),
        ClientError::InvalidAttachmentQueueCapacity { .. }
    ));
    assert_eq!(
        refused(AttachmentControllerOptions {
            presentation_backpressure_timeout: 0,
            ..controller_options()
        }),
        ClientError::InvalidPresentationBackpressureTimeout
    );
    let mut odd = checkpoint(0);
    odd.format_version = 9;
    let attached = attached_session(0, Some(odd), ShellState::default());
    assert!(matches!(
        AttachmentController::new(&attached, controller_options()).map(|_| ()),
        Err(ClientError::UnsupportedCheckpoint { format_version: 9, .. })
    ));
    let attached = attached_session(4, Some(checkpoint(3)), ShellState::default());
    assert!(matches!(
        AttachmentController::new(&attached, controller_options()).map(|_| ()),
        Err(ClientError::InvalidInitialCheckpointSequence { checkpoint_sequence: 3, replay_from: 4 })
    ));
}

#[test]
fn impossible_messages_end_the_attachment() {
    let attached = attached_session(0, None, ShellState::default());
    let mut controller = started(&attached, controller_options());
    assert!(matches!(
        controller.process_server_message(output(1, b"x")),
        Err(ClientError::InvalidOutputSequence { expected_sequence: 0, sequence_start: 1, .. })
    ));
    assert!(matches!(
        controller.process_server_message(geometry(9)),
        Err(ClientError::GeometryAheadOfOutput { expected_sequence: 0, observed_sequence: 9 })
    ));
    emitted(&mut controller, output(0, b"abc"));
    assert!(matches!(
        controller.process_server_message(ServerMessage::Checkpoint {
            checkpoint: checkpoint(1),
            history: None,
            history_gap: false
        }),
        Err(ClientError::StaleCheckpoint { checkpoint_sequence: 1, previous_sequence: 3 })
    ));
    assert!(matches!(
        controller.process_server_message(ServerMessage::Success),
        Err(ClientError::UnexpectedResponse { .. })
    ));
    assert!(matches!(
        controller.accept_presentation_acknowledgement(PresentationAck::Checkpoint { sequence: 3 }),
        Err(ClientError::UnexpectedPresentationAcknowledgement { .. })
    ));
}

#[test]
fn the_end_of_a_session_ends_the_attachment() {
    let attached = attached_session(0, None, ShellState::default());
    let mut controller = started(&attached, controller_options());
    let action = controller
        .process_server_message(ServerMessage::SessionEnded {
            session_id: "session-id".into(),
            exit_code: Some(2),
        })
        .unwrap();
    assert_eq!(
        action,
        ControllerAction::EmitAndExit {
            event: AttachmentEvent::SessionEnded {
                session_id: "session-id".into(),
                exit_code: Some(2)
            },
            reason: AttachExitReason::SessionEnded { exit_code: Some(2) }
        }
    );
}

#[test]
fn only_lease_owners_send_commands() {
    let mut attached = attached_session(0, None, ShellState::default());
    let controller = started(&attached, controller_options());
    assert_eq!(
        controller.state().authorize_input(),
        Err(AttachmentCommandError::InputLeaseRequired)
    );
    assert_eq!(
        controller.state().authorize_resize(),
        Err(AttachmentCommandError::LayoutLeaseRequired)
    );
    attached.input_lease = LeaseStatus { held: true, owned_by_client: true };
    let mut controller = started(&attached, controller_options());
    assert_eq!(controller.state().authorize_input(), Ok(()));
    emitted(
        &mut controller,
        ServerMessage::LeaseStatus {
            lease: LeaseKind::Input,
            status: LeaseStatus { held: true, owned_by_client: false },
        },
    );
    assert!(controller.state().authorize_input().is_err());
    assert_eq!(
        command_message(AttachmentCommand::Input { data: b"x".to_vec() }),
        ClientMessage::Input { data: b"x".to_vec() }
    );
    assert_eq!(command_message(AttachmentCommand::Detach), ClientMessage::Detach);
}

#[test]
fn heartbeats_ask_for_lost_leases_again() {
    let attached = attached_session(0, None, ShellState::default());
    let options = AttachmentControllerOptions {
        reacquire_input_lease: true,
        reacquire_layout_lease: true,
        ..controller_options()
    };
    let controller = started(&attached, options);
    let mut writer = AttachmentWriter::new(controller.state(), &options);
    let first = writer.heartbeat(controller.state(), &options);
    assert!(matches!(first[2], ClientMessage::Heartbeat { nonce: 1 }));
    assert!(first.contains(&ClientMessage::AcquireLease { lease: LeaseKind::Input }));
    assert!(first.contains(&ClientMessage::AcquireLease { lease: LeaseKind::Layout }));
    let second = writer.heartbeat(controller.state(), &options);
    assert_eq!(second[2], ClientMessage::Heartbeat { nonce: 2 });
}

#[test]
fn restore_checkpoint_resets_the_raw_renderer_before_its_state_stream() {
    let mut checkpoint = checkpoint(12);
    checkpoint.payload = b"state".to_vec();
    checkpoint.input_prefix = vec![0xe6];
    let mut expected = b"\x1bc\x1b[2J\x1b[H".to_vec();
    expected.extend_from_slice(&checkpoint.payload);
    expected.extend_from_slice(&checkpoint.input_prefix);

    assert_eq!(restore_checkpoint(&checkpoint).unwrap(), expected);
}

#[test]
fn events_are_presented_and_confirmed() {
    let size = TerminalSize::default();
    let shown = present_event(
        AttachmentEvent::Output { sequence_start: 0, sequence_end: 2, data: b"hi".to_vec() },
        size,
    )
    .unwrap();
    assert_eq!(shown.output, b"hi");
    assert_eq!(shown.acknowledgement, Some(PresentationAck::Output { sequence_end: 2 }));

    let mut wide = checkpoint(4);
    wide.terminal_size.columns = 132;
    let shown = present_event(
        AttachmentEvent::Checkpoint { checkpoint: wide, history_gap: true },
        size,
    )
    .unwrap();
    assert_eq!(
        shown.before.as_deref(),
        Some("\r\n[older scrollback is no longer retained; terminal state restored]")
    );
    assert_eq!(shown.acknowledgement, Some(PresentationAck::CheckpointIncompatible { sequence: 4 }));
    let shown =
        present_event(AttachmentEvent::Checkpoint { checkpoint: checkpoint(4), history_gap: false }, size)
            .unwrap();
    assert_eq!(shown.acknowledgement, Some(PresentationAck::Checkpoint { sequence: 4 }));
    assert_eq!(shown.before, None);
    let shown = present_event(
        AttachmentEvent::SessionEnded { session_id: "id".into(), exit_code: Some(2) },
        size,
    )
    .unwrap();
    assert_eq!(shown.before, None);
    assert_eq!(shown.after.as_deref(), Some("\r\n[session ended with exit code Some(2)]"));
}

#[test]
fn the_gap_is_told_before_an_unknown_checkpoint_fails() {
    for history_gap in [true, false] {
        let mut unknown = checkpoint(4);
        unknown.format_version += 1;
        let format = unknown.format.clone();
        let format_version = unknown.format_version;
        let failed = present_event(
            AttachmentEvent::Checkpoint { checkpoint: unknown, history_gap },
            TerminalSize::default(),
        )
        .unwrap_err();
        assert_eq!(
            failed.before.as_deref(),
            history_gap.then_some(
                "\r\n[older scrollback is no longer retained; terminal state restored]"
            )
        );
        assert_eq!(failed.error, ClientError::UnsupportedCheckpoint { format, format_version });
    }
}

#[test]
fn a_detach_byte_ends_typing() {
    let typed = split_typed_input(b"ls\x1dmore");
    assert_eq!(typed.data, Some(b"ls".to_vec()));
    assert!(typed.detach);
    let typed = split_typed_input(b"\x1d");
    assert_eq!(typed.data, None);
    assert!(typed.detach);
    let typed = split_typed_input(b"ls");
    assert_eq!(typed.data, Some(b"ls".to_vec()));
    assert!(!typed.detach);
}

#[test]
fn viewers_are_told_once() {
    let mut notice = ViewOnlyNotice::new();
    assert_eq!(notice.submitted(Ok(())), Ok(None));
    assert!(notice.submitted(Err(AttachmentCommandError::InputLeaseRequired)).unwrap().is_some());
    assert_eq!(notice.submitted(Err(AttachmentCommandError::InputLeaseRequired)), Ok(None));
    assert_eq!(notice.submitted(Err(AttachmentCommandError::Closed)), Ok(None));
    assert_eq!(
        notice.submitted(Err(AttachmentCommandError::LayoutLeaseRequired)),
        Err(ClientError::AttachmentCommand(AttachmentCommandError::LayoutLeaseRequired))
    );
}

#[test]
fn terminals_are_compared_by_grid() {
    let size = TerminalSize::default();
    let pixels = TerminalSize { pixel_width: 5, pixel_height: 6, ..size };
    assert!(terminal_grid_matches(&size, &pixels));
    assert!(!terminal_grid_matches(&size, &TerminalSize { rows: 25, ..size }));
    assert_eq!(current_terminal_size(None), size);
    assert_eq!(current_terminal_size(Some((100, 40))).columns, 100);
    let attached = attached_session(0, None, ShellState::default());
    let options = interactive_options(
        InteractiveAttachOptions {
            reacquire_input_lease: true,
            reacquire_layout_lease: false,
            resize_after_layout_reacquire: true,
        },
        &attached,
        TerminalSize { columns: 10, ..size },
    );
    assert!(!options.renderer_starts_compatible);
    assert!(options.reacquire_input_lease);
    assert_eq!(
        options.resize_after_layout_reacquire,
        Some(TerminalSize { columns: 10, ..size })
    );
    assert_eq!(lease_name(LeaseKind::Input), "input");
    assert_eq!(lease_name(LeaseKind::Layout), "layout");
    assert_eq!(exit_text(Some(3)), "Some(3)");
    assert_eq!(exit_text(None), "None");
    assert!(!report_attachment(&attached, &size).is_empty());
}

#[test]
fn client_errors_are_explained() {
    assert_eq!(
        ClientError::Server { code: ErrorCode::SessionNotFound, message: "gone".into() }.message(""),
        "daemon error SessionNotFound: gone"
    );
    let unexpected =
        ClientError::UnexpectedResponse { expected: "success", actual: ServerMessage::Detached };
    assert!(unexpected.message("Detached").contains("Detached"));
    let info = HandshakeInfo {
        attachment_liveness: AttachmentLiveness { heartbeat_interval: 1, peer_timeout: 2 },
    };
    assert!(begin_attach(ServerMessage::Detached, info).is_err());
}

#[test]
fn a_late_acknowledgement_is_refused_in_words() {
    assert_eq!(
        AttachmentAcknowledgementError::Closed.message(),
        "attachment controller is no longer running"
    );
    assert_eq!(
        AttachmentCommandError::Closed.message(),
        "attachment controller is no longer running"
    );
}
