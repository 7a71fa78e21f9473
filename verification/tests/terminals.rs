use rmux::history::{logical_history_lines, TerminalHistory};
use rmux::paths::{abbreviate_home_directory, display_working_directory};
use rmux::proto::{
    CommandLine, CwdSource, ForegroundProcess, PromptPhase, ShellCapabilities, ShellDescriptor,
    ShellType, TerminalCheckpoint, TerminalSize, TuiHint,
};
use rmux::report::ShellReport;
use rmux::screen::AlternateScreenTracker;
use rmux::terminal::{
    is_usable_size, terminal_scrollback_rows, ProcessObservation, TerminalDisplay, TerminalState,
    TERMINAL_HISTORY_CAPACITY_BYTES,
};
use rmux::utf8::{malformed_length, valid_up_to};

fn terminal_state() -> TerminalState {
    let terminal_size = TerminalSize::default();
    terminal_state_with_size(
        terminal_size.columns,
        terminal_size.rows,
        TERMINAL_HISTORY_CAPACITY_BYTES,
    )
}

fn terminal_state_with_size(
    columns: u16,
    rows: u16,
    history_capacity_bytes: usize,
) -> TerminalState {
    let terminal_size = TerminalSize {
        columns,
        rows,
        ..TerminalSize::default()
    };
    TerminalState::new(terminal_size, 1024, history_capacity_bytes)
}

/// Feeds output and leaves the checkpoint as it is, as long as the journal
/// reaches back to it.
fn feed(terminal: &mut TerminalState, data: &[u8]) {
    let _ = terminal.append_output(data, 1_000_000);
}

/// Makes a checkpoint of what was fed.
fn refresh(terminal: &mut TerminalState) {
    let _ = terminal.append_output(b"", 0);
}

/// A display that continues from a checkpoint, and the input that is pending.
fn restored(checkpoint: TerminalCheckpoint) -> (TerminalDisplay, Vec<u8>) {
    let mut display =
        TerminalDisplay::new(checkpoint.terminal_size, TERMINAL_HISTORY_CAPACITY_BYTES);
    let mut pending = checkpoint.payload;
    display.feed_bytes(&mut pending);
    assert!(pending.is_empty());
    (display, checkpoint.input_prefix)
}

#[test]
fn checkpoint_preserves_a_partial_escape_sequence() {
    let mut source = terminal_state();
    feed(&mut source, b"\x1b[");
    refresh(&mut source);
    let checkpoint = source.checkpoint();

    feed(&mut source, b"2J\x1b[Hcheckpoint");
    let (mut restored, mut pending) = restored(checkpoint);
    pending.extend_from_slice(b"2J\x1b[Hcheckpoint");
    restored.feed_bytes(&mut pending);

    assert_eq!(source.text(), restored.text());
    assert!(restored.text().join("\n").contains("checkpoint"));
}

#[test]
fn checkpoint_preserves_an_incomplete_utf8_character() {
    let mut source = terminal_state();
    feed(&mut source, &[0xe6]);
    refresh(&mut source);
    let checkpoint = source.checkpoint();
    assert_eq!(checkpoint.input_prefix, vec![0xe6]);

    feed(&mut source, &[0x97, 0xa5]);
    let (mut restored, mut pending) = restored(checkpoint);
    pending.extend_from_slice(&[0x97, 0xa5]);
    restored.feed_bytes(&mut pending);

    assert_eq!(source.text(), restored.text());
    assert!(restored.text().join("\n").contains('日'));
}

#[test]
fn checkpoint_parser_retains_bounded_scrollback_behind_the_live_view() {
    let mut terminal = terminal_state();
    let rows = usize::from(terminal.size().rows);

    for _ in 0..(rows + 10) {
        feed(&mut terminal, b"line\r\n");
    }

    assert!(terminal.text().len() > rows);
    refresh(&mut terminal);
    let (restored, _pending) = restored(terminal.checkpoint());
    assert!(restored.text().len() <= rows);
}

#[test]
fn history_contains_only_complete_logical_lines_above_the_live_view() {
    let mut terminal = terminal_state_with_size(5, 2, 1024);

    feed(&mut terminal, b"first\r\nsecond\r\nlive");
    refresh(&mut terminal);

    assert_eq!(terminal.history().lines, vec!["first"]);
}

#[test]
fn soft_wrapped_history_is_one_logical_line_across_resize() {
    let mut terminal = terminal_state_with_size(5, 2, 1024);

    feed(&mut terminal, b"abcdefghij\r\none\r\ntwo");
    refresh(&mut terminal);
    assert_eq!(terminal.history().lines, vec!["abcdefghij"]);

    terminal.resize(TerminalSize { columns: 10, rows: 2, ..TerminalSize::default() });
    refresh(&mut terminal);
    assert_eq!(terminal.history().lines, vec!["abcdefghij"]);
}

#[test]
fn alternate_screen_output_does_not_replace_primary_history() {
    let mut terminal = terminal_state_with_size(8, 2, 1024);
    feed(&mut terminal, b"history\r\nprimary\r\nlive");
    refresh(&mut terminal);
    let primary_history = terminal.history();

    feed(&mut terminal, b"\x1b[?1049halternate\r\ncontent\r\nmore");
    refresh(&mut terminal);
    let meanwhile = terminal.history();
    assert_eq!(meanwhile.lines, primary_history.lines);
    assert_eq!(meanwhile.revision, primary_history.revision);
    assert_eq!(meanwhile.generation, primary_history.generation);

    feed(&mut terminal, b"\x1b[?1049l");
    refresh(&mut terminal);
    let afterwards = terminal.history();
    assert_eq!(afterwards.lines, primary_history.lines);
    assert_eq!(afterwards.revision, primary_history.revision);
    assert_eq!(afterwards.generation, primary_history.generation);
}

#[test]
fn erase_saved_lines_starts_a_new_history_generation() {
    let mut terminal = terminal_state_with_size(8, 2, 1024);
    feed(&mut terminal, b"history\r\nprimary\r\nlive");
    refresh(&mut terminal);
    let old_checkpoint_history = terminal.history();
    assert_eq!(old_checkpoint_history.lines, vec!["history"]);

    feed(&mut terminal, b"\x1b[3J");
    assert_eq!(terminal.history(), old_checkpoint_history);

    refresh(&mut terminal);
    let history = terminal.history();
    assert_eq!(history.generation, old_checkpoint_history.generation + 1);
    assert!(history.lines.is_empty());
    assert_eq!(terminal.text(), vec!["primary", "live"]);
}

#[test]
fn output_after_erasing_saved_lines_in_the_same_chunk_is_retained() {
    let mut terminal = terminal_state_with_size(12, 2, 1024);
    feed(&mut terminal, b"old-history\r\nprimary\r\nlive");
    refresh(&mut terminal);
    assert_eq!(terminal.history().lines, vec!["old-history"]);

    feed(
        &mut terminal,
        b"\x1b[3J\x1b[2J\x1b[Hnew-history\r\nnew-screen\r\nlive",
    );
    refresh(&mut terminal);

    assert_eq!(terminal.history().lines, vec!["new-history"]);
}

#[test]
fn bounded_history_discards_whole_oldest_lines() {
    let mut history = TerminalHistory::new(8);

    history.replace(vec!["one".into(), "two".into(), "three".into()], false);
    let first = history.snapshot(0);
    assert_eq!(first.lines, vec!["three"]);
    assert_eq!(first.retained_bytes, 6);
    assert!(first.truncated);

    history.replace(vec!["three".into()], false);
    assert_eq!(history.snapshot(0), first);

    history.clear();
    let cleared = history.snapshot(0);
    assert_eq!(cleared.generation, first.generation + 1);
    assert!(!cleared.truncated);
    assert!(cleared.lines.is_empty());
}

#[test]
fn alternate_screen_hint_tracks_private_modes_across_chunks() {
    let mut tracker = AlternateScreenTracker::default();

    assert_eq!(tracker.observe(b"prompt"), Some(TuiHint::Inline));
    assert_eq!(tracker.observe(b"\x1b[?10"), None);
    assert_eq!(tracker.observe(b"49h"), Some(TuiHint::AlternateScreen));
    assert_eq!(tracker.observe(b"\x1b[?1049h"), None);
    assert_eq!(tracker.observe(b"\x1b[?47h"), None);
    assert_eq!(tracker.observe(b"\x1b[?1049l"), None);
    assert_eq!(tracker.observe(b"\x1b[?47l"), Some(TuiHint::Inline));
}

#[test]
fn alternate_screen_hint_ignores_non_private_csi_sequences() {
    let mut tracker = AlternateScreenTracker::default();

    assert_eq!(tracker.observe(b"\x1b[2J\x1b[H"), Some(TuiHint::Inline));
    assert_eq!(tracker.observe(b"\x1b[1049h"), None);
    assert_eq!(tracker.observe(b"\x1b[?2004h"), None);
}

#[test]
fn a_reset_leaves_the_alternate_screen() {
    let mut tracker = AlternateScreenTracker::default();
    tracker.observe(b"\x1b[?1049h");
    assert!(tracker.active());
    assert_eq!(tracker.hint(), TuiHint::AlternateScreen);
    assert_eq!(tracker.reset(), Some(TuiHint::Inline));
    assert!(!tracker.active());
}

#[test]
fn output_changes_the_hint_of_the_shell_state() {
    let mut terminal = terminal_state();
    let (some, state) = terminal.append_output(b"$ ", 1024);
    assert!(some);
    assert_eq!(state.unwrap().tui_hint, TuiHint::Inline);
    let (_some, state) = terminal.append_output(b"\x1b[?1049h", 1024);
    let state = state.unwrap();
    assert_eq!(state.tui_hint, TuiHint::AlternateScreen);
    assert_eq!(state.revision, 2);
    assert_eq!(state.observed_sequence, 10);
    assert_eq!(terminal.append_output(b"x", 1024), (true, None));
    assert_eq!(terminal.append_output(b"", 1024), (false, None));
}

#[test]
fn shell_report_tracks_cwd_and_replaces_edit_text_with_running_summary() {
    let mut terminal = terminal_state();
    let _output = terminal.append_output(b"ready", 1024);
    let started = terminal.shell_state();
    let editing = ShellReport {
        shell: ShellDescriptor {
            shell_type: ShellType::Zsh,
            integration_version: Some(2),
            capabilities: ShellCapabilities {
                reports_cwd: true,
                reports_command_line: true,
                reports_cursor: true,
                reports_prompt_phase: true,
                reports_running_command: true,
            },
        },
        cwd: Some("/workspace".into()),
        prompt_phase: PromptPhase::Editing,
        current_command_line: Some(CommandLine {
            text: "cargo test".into(),
            cursor_scalar_offset: Some(10),
        }),
        running_command: None,
    };

    let editing_state = terminal
        .apply_shell_report(editing, None)
        .expect("changed shell report should produce a state revision");
    assert_eq!(editing_state.revision - started.revision, 1);
    assert_eq!(editing_state.observed_sequence, 5);
    assert_eq!(
        editing_state
            .current_command_line
            .as_ref()
            .map(|line| line.text.as_str()),
        Some("cargo test")
    );

    let running = ShellReport {
        shell: editing_state.shell,
        cwd: editing_state.cwd,
        prompt_phase: PromptPhase::Running,
        current_command_line: None,
        running_command: Some("cargo test --workspace".into()),
    };
    let running_state = terminal
        .apply_shell_report(running, None)
        .expect("running state should clear prior editable text");
    assert_eq!(running_state.revision - started.revision, 2);
    assert_eq!(running_state.current_command_line, None);
    assert_eq!(
        running_state.running_command.as_deref(),
        Some("cargo test --workspace")
    );
}

fn native_sample(cwd: &str) -> ProcessObservation {
    ProcessObservation {
        pid: 10,
        name: Some("sh".into()),
        cwd: Some(cwd.into()),
        foreground: ForegroundProcess::Child {
            pid: 20,
            name: Some("sleep".into()),
        },
    }
}

fn cwd_report(cwd: Option<&str>) -> ShellReport {
    ShellReport {
        shell: ShellDescriptor {
            shell_type: ShellType::Sh,
            integration_version: Some(1),
            capabilities: ShellCapabilities {
                reports_cwd: true,
                reports_prompt_phase: true,
                ..ShellCapabilities::default()
            },
        },
        cwd: cwd.map(str::to_owned),
        prompt_phase: PromptPhase::AtPrompt,
        current_command_line: None,
        running_command: None,
    }
}

#[test]
fn native_observations_provide_cwd_and_job_without_inventing_shell_reports() {
    let mut terminal = terminal_state();
    let _output = terminal.append_output(b"ready", 1024);
    let started = terminal.shell_state();
    let state = terminal
        .apply_process_observation(Some(native_sample("/native")), None)
        .unwrap();
    assert_eq!(state.revision - started.revision, 1);
    assert_eq!(state.observed_sequence, 5);
    assert_eq!(state.cwd.as_deref(), Some("/native"));
    assert_eq!(state.cwd_source, Some(CwdSource::Process));
    assert_eq!(state.shell, ShellDescriptor::default());
    assert_eq!(state.prompt_phase, PromptPhase::Unknown);
    assert_eq!(state.current_command_line, None);
    assert_eq!(state.running_command, None);
    assert_eq!(
        state.process.unwrap().foreground,
        ForegroundProcess::Child {
            pid: 20,
            name: Some("sleep".into())
        }
    );
    assert_eq!(
        terminal.apply_process_observation(Some(native_sample("/native")), None),
        None
    );
    assert_eq!(terminal.shell_state().revision - started.revision, 1);

    let unavailable = terminal.apply_process_observation(None, None).unwrap();
    assert_eq!(unavailable.cwd, None);
    assert_eq!(unavailable.cwd_source, None);
    assert_eq!(unavailable.process, None);
    assert_eq!(unavailable.revision - started.revision, 2);
}

#[test]
fn shell_reports_win_over_native_cwd_and_native_failures_preserve_reports() {
    let mut terminal = terminal_state();
    terminal.apply_process_observation(Some(native_sample("/physical")), None);
    let state = terminal
        .apply_shell_report(cwd_report(Some("/logical")), None)
        .unwrap();
    assert_eq!(state.cwd.as_deref(), Some("/logical"));
    assert_eq!(state.cwd_source, Some(CwdSource::ShellIntegration));
    assert!(state.process.is_some());
    let revision = state.revision;
    assert_eq!(
        terminal.apply_process_observation(Some(native_sample("/new-physical")), None),
        None
    );
    assert_eq!(terminal.shell_state().revision, revision);
    let mut observed = terminal_state();
    observed.apply_process_observation(Some(native_sample("/physical")), None);
    observed.apply_shell_report(cwd_report(Some("/logical")), None);
    observed.apply_process_observation(Some(native_sample("/new-physical")), None);
    let fallback = observed.apply_shell_report(cwd_report(None), None).unwrap();
    assert_eq!(fallback.cwd.as_deref(), Some("/new-physical"));

    let missing = terminal.apply_process_observation(None, None).unwrap();
    assert_eq!(missing.cwd.as_deref(), Some("/logical"));
    assert_eq!(missing.cwd_source, Some(CwdSource::ShellIntegration));
    assert_eq!(missing.prompt_phase, PromptPhase::AtPrompt);
    assert_eq!(missing.process, None);
}

#[test]
fn reports_without_cwd_use_the_latest_native_fallback() {
    let mut terminal = terminal_state();
    terminal.apply_shell_report(cwd_report(Some("/logical")), None);
    terminal.apply_process_observation(Some(native_sample("/physical")), None);
    let state = terminal
        .apply_shell_report(cwd_report(None), None)
        .unwrap();
    assert_eq!(state.cwd.as_deref(), Some("/physical"));
    assert_eq!(state.cwd_source, Some(CwdSource::Process));
    assert_eq!(state.prompt_phase, PromptPhase::AtPrompt);
}

#[test]
fn a_changed_foreground_voids_only_the_job() {
    let kept = native_sample("/work").confirmed(Some(20), Some(20));
    assert_eq!(kept.foreground, ForegroundProcess::Child { pid: 20, name: Some("sleep".into()) });
    let voided = native_sample("/work").confirmed(Some(20), Some(21));
    assert_eq!(voided.foreground, ForegroundProcess::Unknown);
    assert_eq!(voided.cwd.as_deref(), Some("/work"));
}

#[test]
fn reported_directories_are_shown_short() {
    let mut terminal = terminal_state();
    let state = terminal
        .apply_shell_report(cwd_report(Some("/home/me/src")), Some("/home/me"))
        .unwrap();
    assert_eq!(state.cwd.as_deref(), Some("/home/me/src"));
    assert_eq!(state.displayed_cwd(), Some("~/src"));
}

#[test]
fn an_ended_shell_forgets_what_it_reported() {
    let mut terminal = terminal_state();
    terminal.apply_shell_report(cwd_report(Some("/logical")), None);
    let state = terminal.end_shell().unwrap();
    assert_eq!(state.prompt_phase, PromptPhase::Unknown);
    assert_eq!(state.current_command_line, None);
    assert_eq!(state.running_command, None);
    assert_eq!(state.revision, 2);
}

#[test]
fn working_directory_display_abbreviates_only_the_home_path_boundary() {
    assert_eq!(
        abbreviate_home_directory("/Users/me", "/Users/me"),
        Some("~".into())
    );
    assert_eq!(
        abbreviate_home_directory("/Users/me/project", "/Users/me"),
        Some("~/project".into())
    );
    assert_eq!(
        abbreviate_home_directory("/Users/meanwhile", "/Users/me"),
        None
    );
    assert_eq!(
        abbreviate_home_directory("/work/project", "/Users/me"),
        None
    );
}

#[test]
fn directories_outside_home_are_shown_whole() {
    assert_eq!(display_working_directory("/work/project", Some("/Users/me")), "/work/project");
    assert_eq!(display_working_directory("/Users/me", Some("/Users/me")), "~");
    assert_eq!(display_working_directory("/Users/me", None), "/Users/me");
    assert_eq!(abbreviate_home_directory("/Users/me", ""), None);
    assert_eq!(abbreviate_home_directory("work", "/"), None);
}

#[test]
fn a_client_continues_from_the_journal_or_from_a_checkpoint() {
    let mut terminal = TerminalState::new(TerminalSize::default(), 8, 1024);
    terminal.append_output(b"abcd", 64);
    let continued = terminal.delivery(Some(2), Some(0)).unwrap();
    assert!(continued.checkpoint.is_none());
    assert_eq!(continued.journal.replay_from, 2);
    assert_eq!(continued.journal.chunks[0].data, b"cd");

    terminal.append_output(b"efghijklmn", 64);
    let restarted = terminal.delivery(Some(2), Some(0)).unwrap();
    assert!(restarted.history_gap);
    let checkpoint = restarted.checkpoint.unwrap();
    assert!(checkpoint.sequence > 2);
    assert_eq!(checkpoint.sequence, restarted.journal.replay_from);

    assert!(terminal.delivery(Some(15), Some(0)).is_err());
}

#[test]
fn a_resize_is_a_boundary_only_when_the_grid_changes() {
    let mut terminal = terminal_state();
    terminal.append_output(b"x", 1024);
    assert_eq!(terminal.resize(TerminalSize::default()), None);
    let wide = TerminalSize { columns: 120, rows: 24, pixel_width: 0, pixel_height: 0 };
    assert_eq!(terminal.resize(wide), Some((1, 1)));
    assert_eq!(terminal.size(), wide);
    assert_eq!(terminal.checkpoint().terminal_size, wide);
    assert_eq!(terminal.checkpoint().sequence, 1);
}

#[test]
fn scrollback_is_bounded_in_rows_and_cells() {
    let narrow = TerminalSize { columns: 80, rows: 24, pixel_width: 0, pixel_height: 0 };
    assert_eq!(terminal_scrollback_rows(&narrow), 10_000);
    let wide = TerminalSize { columns: 1000, rows: 24, pixel_width: 0, pixel_height: 0 };
    assert_eq!(terminal_scrollback_rows(&wide), 1_000);
    let none = TerminalSize { columns: 0, rows: 24, pixel_width: 0, pixel_height: 0 };
    assert_eq!(terminal_scrollback_rows(&none), 10_000);
}

#[test]
fn history_ends_where_the_live_lines_begin() {
    let all = |lines: &[&str]| lines.iter().map(|line| line.to_string()).collect::<Vec<String>>();
    assert_eq!(
        logical_history_lines(all(&["a", "b", "c"]), &all(&["b", "c"])),
        all(&["a"])
    );
    assert_eq!(
        logical_history_lines(all(&["a", "longline", "c"]), &all(&["line", "c"])),
        all(&["a"])
    );
    assert_eq!(
        logical_history_lines(all(&["a", "b", "c"]), &all(&["x", "c"])),
        all(&[])
    );
}

#[test]
fn malformed_bytes_become_replacement_characters() {
    let mut terminal = terminal_state();
    terminal.append_output(b"a\xff\xc3(\xe2\x82", 1024);
    assert_eq!(terminal.text()[0], "a\u{fffd}\u{fffd}(");
    terminal.append_output(b"\xac", 1024);
    assert_eq!(terminal.text()[0], "a\u{fffd}\u{fffd}(\u{20ac}");
}

#[test]
fn valid_text_is_measured_in_bytes() {
    assert_eq!(valid_up_to("é!".as_bytes()), 3);
    assert_eq!(valid_up_to(b"ab\xff"), 2);
    assert_eq!(malformed_length(b"\xff"), Some(1));
    assert_eq!(malformed_length(b"\xe2\x82"), None);
    assert_eq!(malformed_length(b"\xe2\x82("), Some(2));
    assert_eq!(malformed_length(b"\xe2("), Some(1));
}

#[test]
fn chunks_do_not_matter_to_the_terminal() {
    let output = "plain \x1b[31mred\x1b[0m é日\r\nnext".as_bytes();
    let mut whole = terminal_state();
    whole.append_output(output, 4096);
    for cut in 1..output.len() {
        let mut parts = terminal_state();
        parts.append_output(&output[..cut], 4096);
        parts.append_output(&output[cut..], 4096);
        assert_eq!(parts.text(), whole.text());
        assert_eq!(parts.next_sequence(), whole.next_sequence());
    }
}

#[test]
fn a_terminal_says_whether_it_can_take_more() {
    let mut terminal = terminal_state();
    assert!(terminal.can_grow(u64::MAX));
    terminal.append_output(b"x", 4096);
    assert!(terminal.can_grow(4096));
    assert!(!terminal.can_grow(u64::MAX));
}

#[test]
fn a_grid_needs_two_columns_and_a_row() {
    let size = |columns, rows| TerminalSize { columns, rows, ..TerminalSize::default() };
    assert!(is_usable_size(&size(2, 1)));
    assert!(is_usable_size(&TerminalSize::default()));
    assert!(!is_usable_size(&size(1, 24)));
    assert!(!is_usable_size(&size(80, 0)));
}
