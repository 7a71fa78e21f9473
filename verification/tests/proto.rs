use rmux::proto::{
    is_valid_running_command, CommandLine, CwdSource, ForegroundProcess, PromptPhase,
    ShellCapabilities, ShellDescriptor, ShellProcessState, ShellState, ShellType,
    TerminalCheckpoint, TerminalSize, TuiHint, MAX_FRAME_SIZE, MAX_RUNNING_COMMAND_BYTES,
    PROTOCOL_VERSION,
};

fn shell_state() -> ShellState {
    ShellState {
        revision: 7,
        observed_sequence: 123,
        shell: ShellDescriptor {
            shell_type: ShellType::Zsh,
            integration_version: Some(1),
            capabilities: ShellCapabilities {
                reports_cwd: true,
                reports_command_line: true,
                reports_cursor: true,
                reports_prompt_phase: true,
                reports_running_command: false,
            },
        },
        cwd: Some("/work/rmux".into()),
        cwd_display: None,
        cwd_source: None,
        process: None,
        prompt_phase: PromptPhase::Editing,
        command_line_redacted: false,
        current_command_line: Some(CommandLine {
            text: "cargo test".into(),
            cursor_scalar_offset: Some(10),
        }),
        running_command_redacted: false,
        running_command: None,
        tui_hint: TuiHint::Inline,
    }
}

#[test]
fn reconnect_support_uses_protocol_version_seven() {
    assert_eq!(PROTOCOL_VERSION, 7);
}

#[test]
fn frames_are_limited_to_eight_mebibytes() {
    assert_eq!(MAX_FRAME_SIZE, 8 * 1024 * 1024);
}

#[test]
fn command_line_cursor_uses_unicode_scalar_offsets() {
    let valid_before_accent = CommandLine {
        text: "café".into(),
        cursor_scalar_offset: Some(3),
    };
    let valid_end = CommandLine {
        text: "café".into(),
        cursor_scalar_offset: Some(4),
    };
    let invalid_after_end = CommandLine {
        text: "café".into(),
        cursor_scalar_offset: Some(5),
    };

    assert!(valid_before_accent.has_valid_cursor());
    assert!(valid_end.has_valid_cursor());
    assert!(!invalid_after_end.has_valid_cursor());
}

#[test]
fn shell_state_rejects_a_command_line_marked_as_redacted() {
    let mut state = shell_state();
    assert!(state.has_valid_command_line());

    state.command_line_redacted = true;
    assert!(!state.has_valid_command_line());

    state.current_command_line = None;
    assert!(state.has_valid_command_line());
}

#[test]
fn shell_state_rejects_a_command_line_while_running() {
    let mut state = shell_state();
    state.prompt_phase = PromptPhase::Running;

    assert!(!state.has_valid_command_line());
}

#[test]
fn shell_state_accepts_a_bounded_running_command_only_while_running() {
    let mut state = shell_state();
    state.prompt_phase = PromptPhase::Running;
    state.current_command_line = None;
    state.shell.capabilities.reports_running_command = true;
    state.running_command = Some("cargo test --workspace".into());

    assert!(state.has_valid_running_command());
    assert!(state.has_valid_metadata());

    state.prompt_phase = PromptPhase::AtPrompt;
    assert!(!state.has_valid_running_command());
}

#[test]
fn shell_state_rejects_invalid_running_command_summaries() {
    let mut state = shell_state();
    state.prompt_phase = PromptPhase::Running;
    state.current_command_line = None;
    state.shell.capabilities.reports_running_command = true;

    state.running_command = Some(String::new());
    assert!(!state.has_valid_running_command());

    state.running_command = Some("cargo\ntest".into());
    assert!(!state.has_valid_running_command());

    state.running_command = Some("x".repeat(MAX_RUNNING_COMMAND_BYTES + 1));
    assert!(!state.has_valid_running_command());
}

#[test]
fn shell_state_rejects_a_running_command_marked_as_redacted() {
    let mut state = shell_state();
    state.prompt_phase = PromptPhase::Running;
    state.current_command_line = None;
    state.shell.capabilities.reports_running_command = true;
    state.running_command = Some("cargo test".into());
    state.running_command_redacted = true;

    assert!(!state.has_valid_running_command());
}

#[test]
fn shell_state_visibility_filters_editing_and_running_text_independently() {
    let mut editing = shell_state();
    let hidden_editing = editing.clone().filtered_for_visibility(false, true);
    assert!(hidden_editing.command_line_redacted);
    assert_eq!(hidden_editing.current_command_line, None);
    assert!(!hidden_editing.running_command_redacted);

    editing.prompt_phase = PromptPhase::Running;
    editing.current_command_line = None;
    editing.shell.capabilities.reports_running_command = true;
    editing.running_command = Some("cargo test".into());
    let hidden_running = editing.clone().filtered_for_visibility(true, false);
    assert!(hidden_running.running_command_redacted);
    assert_eq!(hidden_running.running_command, None);
    assert!(!hidden_running.command_line_redacted);

    let visible_running = editing.filtered_for_visibility(false, true);
    assert!(!visible_running.running_command_redacted);
    assert_eq!(
        visible_running.running_command.as_deref(),
        Some("cargo test")
    );
}

#[test]
fn default_shell_state_is_an_explicit_unknown_snapshot() {
    assert_eq!(
        ShellState::default(),
        ShellState {
            revision: 0,
            observed_sequence: 0,
            shell: ShellDescriptor::default(),
            cwd: None,
            cwd_display: None,
            cwd_source: None,
            process: None,
            prompt_phase: PromptPhase::Unknown,
            command_line_redacted: false,
            current_command_line: None,
            running_command_redacted: false,
            running_command: None,
            tui_hint: TuiHint::Unknown,
        }
    );
}

#[test]
fn visible_shell_states_stay_valid() {
    let mut state = shell_state();
    for (line, running) in [(false, false), (false, true), (true, false), (true, true)] {
        assert!(state.clone().filtered_for_visibility(line, running).has_valid_metadata());
    }
    state.prompt_phase = PromptPhase::Running;
    state.current_command_line = None;
    state.shell.capabilities.reports_running_command = true;
    state.running_command = Some("make".into());
    for (line, running) in [(false, false), (false, true), (true, false), (true, true)] {
        assert!(state.clone().filtered_for_visibility(line, running).has_valid_metadata());
    }
}

#[test]
fn running_commands_are_short_and_printable() {
    assert!(is_valid_running_command("cargo test"));
    assert!(is_valid_running_command(&"x".repeat(MAX_RUNNING_COMMAND_BYTES)));
    assert!(!is_valid_running_command(""));
    assert!(!is_valid_running_command("a\u{7f}b"));
    assert!(!is_valid_running_command("a\u{85}b"));
}

#[test]
fn the_shown_directory_counts_before_the_real_one() {
    let mut state = shell_state();
    assert_eq!(state.displayed_cwd(), Some("/work/rmux"));
    state.cwd_display = Some("~/rmux".into());
    assert_eq!(state.displayed_cwd(), Some("~/rmux"));
    state.cwd = None;
    state.cwd_display = None;
    assert_eq!(state.displayed_cwd(), None);
}

#[test]
fn shell_states_are_compared_field_by_field() {
    let state = shell_state();
    assert!(state.same(&state.clone()));
    let mut other = state.clone();
    other.cwd_source = Some(CwdSource::Process);
    assert!(!state.same(&other));
    let mut other = state.clone();
    other.process = Some(ShellProcessState {
        pid: 1,
        name: None,
        foreground: ForegroundProcess::Shell,
    });
    assert!(!state.same(&other));
}

#[test]
fn only_the_known_checkpoint_format_is_supported() {
    let mut checkpoint = TerminalCheckpoint {
        format: "rmux_vt_state".into(),
        format_version: 1,
        sequence: 0,
        terminal_size: TerminalSize::default(),
        payload: Vec::new(),
        input_prefix: Vec::new(),
    };
    assert!(checkpoint.is_supported());
    checkpoint.format_version = 2;
    assert!(!checkpoint.is_supported());
    checkpoint.format_version = 1;
    checkpoint.format = "other".into();
    assert!(!checkpoint.is_supported());
}

#[test]
fn the_default_terminal_has_eighty_columns() {
    assert_eq!(
        TerminalSize::default(),
        TerminalSize { columns: 80, rows: 24, pixel_width: 0, pixel_height: 0 }
    );
}
