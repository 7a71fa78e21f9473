use rmux::client::{AttachedSession, AttachmentLiveness, ClientError, SessionShellState};
use rmux::codec::CodecError;
use rmux::commands::{
    client_identity, closed_reason, command_spec, created_line, detached_notice, ended_notice,
    escaped_for_terminal, existing_session, is_retryable_protocol_error, list_lines, needs_current_directory,
    plan_command, prompt_phase_name, reconnect_notice, resolve_session, run, session_line,
    shell_type_name, state_lines, tui_hint_name, AttachmentLoop, Command, CommandPlan, CommandStep,
    LocalConnector, LoopStep, ShellCommand, ShellKind,
};
use rmux::controller::{AttachExit, AttachExitReason};
use rmux::ipc::{ConnectError, IoFailure, IoFailureKind};
use rmux::proto::{
    CommandLine, ErrorCode, LeaseStatus, PromptPhase, SessionInfo, SessionStatus, ShellState,
    ShellType, TerminalSize, TuiHint,
};
use rmux::shell::{init_script, Shell};

#[test]
fn local_connector_preserves_the_standalone_identity() {
    let connector = LocalConnector::new("/tmp/rmux.sock".to_owned());
    assert!(connector.is_local());
    assert_eq!(connector.client_name(), "rmux");
    assert_eq!(connector.status_prefix(), "rmux");
}

#[test]
fn the_local_connector_waits_for_absent_daemons() {
    let connector = LocalConnector::new("/tmp/rmux.sock".to_owned());
    assert_eq!(connector.socket_path(), "/tmp/rmux.sock");
    assert_eq!(connector.label(), "local");
    assert_eq!(connector.connection_kind(), "local");
    let failure = |kind| IoFailure { kind, message: String::new() };
    assert!(connector.is_retryable(&ConnectError::Connect(failure(IoFailureKind::NotFound))));
    assert!(!connector.is_retryable(&ConnectError::Connect(failure(IoFailureKind::Other))));
    let identity = client_identity("rmux", "1.2");
    assert_eq!((identity.name.as_str(), identity.version.as_str()), ("rmux", "1.2"));
}

#[test]
fn zsh_integration_advertises_live_editing_capabilities() {
    let script = init_script(Shell::Zsh);
    assert!(script.contains("cwd,command_line,cursor,prompt_phase"));
    assert!(script.contains("line-pre-redraw"));
    assert!(script.contains("RMUX_SHELL_STATE_PIPE"));
    assert!(script.contains("unset RMUX_SHELL_STATE_PIPE"));
    assert!(script.contains("typeset +x __rmux_shell_state_pipe"));
    assert!(!script.contains("exec {__rmux_shell_state_fd}"));
}

#[test]
fn bash_integration_does_not_claim_a_live_edit_buffer() {
    let script = init_script(Shell::Bash);
    assert!(script.contains("cwd,prompt_phase"));
    assert!(!script.contains("cwd,command_line,cursor,prompt_phase"));
    assert!(script.contains("unset RMUX_SHELL_STATE_PIPE"));
    assert!(script.contains("declare +x __rmux_shell_state_pipe"));
    assert!(!script.contains("exec 9>"));
}

#[test]
fn a_command_line_is_a_program_and_its_arguments() {
    let words = |list: &[&str]| list.iter().map(|word| word.to_string()).collect::<Vec<String>>();
    assert_eq!(command_spec(Vec::new()), None);
    let spec = command_spec(words(&["top", "-d", "1"])).unwrap();
    assert_eq!(spec.program, "top");
    assert_eq!(spec.arguments, vec!["-d", "1"]);
}

fn attach(raw: bool, target: Option<&str>) -> Command {
    Command::Attach {
        session: Some("first".to_owned()),
        target: target.map(str::to_owned),
        raw,
        resume_from: None,
        read_only: true,
        resize: false,
    }
}

#[test]
fn commands_open_the_interface_or_run() {
    assert_eq!(
        plan_command(None),
        CommandPlan::Create {
            name: None,
            cwd: None,
            command: Vec::new(),
            detached: false,
            attach_if_exists: false
        }
    );
    assert_eq!(
        plan_command(Some(attach(false, Some("second")))),
        CommandPlan::Show { target: Some("second".to_owned()), read_only: true }
    );
    assert_eq!(
        plan_command(Some(attach(false, None))),
        CommandPlan::Show { target: Some("first".to_owned()), read_only: true }
    );
    assert_eq!(
        plan_command(Some(attach(true, None))),
        CommandPlan::Run(attach(true, None))
    );
    assert_eq!(
        plan_command(Some(Command::Archive { session_id: "x".to_owned() })),
        CommandPlan::ShowArchive { session_id: "x".to_owned() }
    );
    assert_eq!(plan_command(Some(Command::List)), CommandPlan::Run(Command::List));
}

#[test]
fn commands_become_requests() {
    assert_eq!(run(Command::List), CommandStep::ListSessions);
    assert_eq!(
        run(attach(true, None)),
        CommandStep::AttachSession {
            session: Some("first".to_owned()),
            resume_from: None,
            request_input_lease: false,
            request_layout_lease: false
        }
    );
    assert_eq!(
        run(Command::Kill { session: None, target: Some("work".to_owned()) }),
        CommandStep::KillSession { session: "work".to_owned() }
    );
    match run(Command::Shell { command: ShellCommand::Init { shell: ShellKind::Zsh } }) {
        CommandStep::Print(script) => assert_eq!(script, init_script(Shell::Zsh)),
        _ => panic!("a script is printed"),
    }
    assert_eq!(
        run(Command::State { session: "work".to_owned() }),
        CommandStep::ShowShellState { session: "work".to_owned() }
    );
    assert!(matches!(
        run(Command::Merge { source: "a".to_owned(), destination: "b".to_owned() }),
        CommandStep::Arrange(Command::Merge { .. })
    ));
}

fn info(id: &str, created_at_ms: u64, status: SessionStatus) -> SessionInfo {
    SessionInfo {
        session_id: id.to_owned(),
        name: format!("name-{id}"),
        status,
        created_at_ms,
        next_sequence: 42,
        terminal_size: TerminalSize::default(),
    }
}

#[test]
fn the_newest_running_session_is_attached_by_default() {
    let sessions = vec![
        info("a", 1, SessionStatus::Running),
        info("b", 5, SessionStatus::Running),
        info("c", 9, SessionStatus::Exited),
        info("d", 5, SessionStatus::Running),
    ];
    assert_eq!(resolve_session(None, &sessions).as_deref(), Some("b"));
    assert_eq!(resolve_session(Some("work".to_owned()), &sessions).as_deref(), Some("work"));
    assert_eq!(resolve_session(None, &Vec::new()), None);
}

#[test]
fn an_existing_session_is_taken_only_where_it_will_do() {
    let sessions = vec![
        info("a", 1, SessionStatus::Running),
        info("b", 5, SessionStatus::Running),
        info("b", 9, SessionStatus::Running),
    ];
    let name = Some("name-b".to_owned());
    assert_eq!(existing_session(&name, true, &sessions), Some(1));
    assert_eq!(existing_session(&name, false, &sessions), None);
    assert_eq!(existing_session(&None, true, &sessions), None);
    assert_eq!(existing_session(&Some("b".to_owned()), true, &sessions), None);
}

#[test]
fn local_sessions_start_where_the_user_is() {
    assert!(needs_current_directory(&None, true));
    assert!(!needs_current_directory(&None, false));
    assert!(!needs_current_directory(&Some("/".to_owned()), true));
}

#[test]
fn sessions_are_printed_in_columns() {
    let session = info("1", 0, SessionStatus::Running);
    assert_eq!(created_line(&session), "1\tname-1");
    assert_eq!(session_line(&session), "name-1\t1\tRunning\t80x24\t42");
    assert_eq!(list_lines(&Vec::new()), vec!["no sessions"]);
    assert_eq!(
        list_lines(&vec![session]),
        vec!["NAME\tID\tSTATUS\tSIZE\tNEXT_SEQUENCE", "name-1\t1\tRunning\t80x24\t42"]
    );
}

#[test]
fn printed_states_leave_commands_out() {
    let state = SessionShellState {
        session: info("1", 0, SessionStatus::Running),
        shell_state: ShellState {
            cwd: Some("/a\x1b[2Jb".to_owned()),
            current_command_line: Some(CommandLine {
                text: "secret".to_owned(),
                cursor_scalar_offset: None,
            }),
            running_command: Some("hidden".to_owned()),
            ..ShellState::default()
        },
    };
    let printed = state_lines(&state).join("\n");
    assert!(!printed.contains("secret"));
    assert!(!printed.contains("hidden"));
    assert!(!printed.contains('\x1b'));
    assert!(printed.contains("name-1"));
    assert_eq!(escaped_for_terminal("plain"), "plain");
    assert_eq!(escaped_for_terminal("a\nb"), "a\\nb");
    assert_eq!(escaped_for_terminal("\x1b"), "\\u{1b}");
    assert_eq!(shell_type_name(ShellType::Zsh), "zsh");
    assert_eq!(prompt_phase_name(PromptPhase::AtPrompt), "at_prompt");
    assert_eq!(tui_hint_name(TuiHint::AlternateScreen), "alternate_screen");
}

#[test]
fn notices_name_the_session() {
    assert_eq!(
        reconnect_notice("rmux", &closed_reason("local"), 250),
        "rmux: connection interrupted (local connection closed); reconnecting in 250 ms"
    );
    assert_eq!(detached_notice("rmux", "local", "work"), "rmux: detached from local:work");
    assert_eq!(
        ended_notice("rmux", "local", "work", Some(1)),
        "rmux: local:work ended with exit code Some(1); not reconnecting"
    );
}

fn attached(input: bool, layout: bool) -> AttachedSession {
    AttachedSession {
        attachment_token: "token".to_owned(),
        session: info("1", 0, SessionStatus::Running),
        replay_from: 0,
        history_gap: false,
        checkpoint: None,
        terminal_size_mismatch: false,
        input_lease: LeaseStatus { held: true, owned_by_client: input },
        layout_lease: LeaseStatus { held: true, owned_by_client: layout },
        shell_state: ShellState::default(),
        liveness: AttachmentLiveness { heartbeat_interval: 1, peer_timeout: 3 },
    }
}

fn exit(reason: AttachExitReason, next_sequence: Option<u64>) -> AttachExit {
    AttachExit { reason, next_sequence, received_sequence: 9 }
}

#[test]
fn an_interrupted_attachment_is_resumed() {
    let mut state = AttachmentLoop::new("work".to_owned(), Some(3), true, false);
    let (request, token) = state.request(TerminalSize::default());
    assert_eq!(request.session, "work");
    assert_eq!(request.resume_from, Some(3));
    assert!(request.request_input_lease);
    assert!(!request.request_layout_lease);
    assert_eq!(token, None);

    assert_eq!(state.connection_failed(true), LoopStep::Wait(250));
    assert_eq!(state.connection_failed(true), LoopStep::Wait(500));
    assert_eq!(state.connection_failed(false), LoopStep::Fail);

    state.attached(&attached(true, false));
    assert_eq!(
        state.exited(exit(AttachExitReason::ConnectionClosed, Some(8))),
        LoopStep::Wait(250)
    );
    let (request, token) = state.request(TerminalSize::default());
    assert_eq!(request.resume_from, Some(8));
    assert_eq!(token.as_deref(), Some("token"));
    assert_eq!(state.exited(exit(AttachExitReason::Detached, None)), LoopStep::Detached);
    assert_eq!(
        state.exited(exit(AttachExitReason::SessionEnded { exit_code: Some(1) }, None)),
        LoopStep::Ended(Some(1))
    );
}

#[test]
fn waits_grow_to_five_seconds() {
    let mut state = AttachmentLoop::new("work".to_owned(), None, true, true);
    let mut waits = Vec::new();
    for _ in 0..8 {
        match state.connection_failed(true) {
            LoopStep::Wait(delay) => waits.push(delay),
            _ => panic!("a retryable failure is waited for"),
        }
    }
    assert_eq!(waits, vec![250, 500, 1_000, 2_000, 4_000, 5_000, 5_000, 5_000]);
}

#[test]
fn only_lost_transports_are_retried() {
    let io = |kind| ClientError::Codec(CodecError::Io(IoFailure { kind, message: String::new() }));
    assert!(is_retryable_protocol_error(&io(IoFailureKind::UnexpectedEof)));
    assert!(!is_retryable_protocol_error(&io(IoFailureKind::PermissionDenied)));
    assert!(is_retryable_protocol_error(&ClientError::UnexpectedEof));
    assert!(!is_retryable_protocol_error(&ClientError::Server {
        code: ErrorCode::SessionNotFound,
        message: String::new()
    }));
    assert!(!is_retryable_protocol_error(&ClientError::Codec(CodecError::Json(String::new()))));
    let mut state = AttachmentLoop::new("work".to_owned(), None, true, true);
    assert_eq!(state.broke_off(&ClientError::UnexpectedEof), LoopStep::Wait(250));
    assert_eq!(
        state.attach_failed(&ClientError::Server {
            code: ErrorCode::SessionNotFound,
            message: String::new()
        }),
        LoopStep::Fail
    );
}

#[test]
fn a_rejected_token_is_given_up() {
    let mut state = AttachmentLoop::new("work".to_owned(), None, true, true);
    state.attached(&attached(true, true));
    let rejected = ClientError::Server {
        code: ErrorCode::AttachmentResumeRejected,
        message: String::new(),
    };
    assert_eq!(state.attach_failed(&rejected), LoopStep::Again);
    let (_request, token) = state.request(TerminalSize::default());
    assert_eq!(token, None);
}
