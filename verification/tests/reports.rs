use rmux::conpty::{StartupError, StartupOutput, MAX_STARTUP_BYTES};
use rmux::proto::{
    PromptPhase, ShellCapabilities, ShellDescriptor, ShellType, MAX_RUNNING_COMMAND_BYTES,
};
use rmux::report::{
    parse_report, Delivery, RecordParser, ReportDispatcher, ShellReport, MAX_COMMAND_LINE_BYTES,
    REPORT_DELIVERY_INTERVAL_MS, REPORT_FIELD_COUNT, REPORT_MAGIC_V1, REPORT_MAGIC_V2,
};
use rmux::reporter::{
    after_fifo_attempt, after_wake, draw_fifo_path, fifo_path, shutdown_result, FifoAttempt,
    FifoStep, ShellReporterError, WakeWrite, CREATE_ATTEMPTS,
};

fn report_record(fields: &[&str; REPORT_FIELD_COUNT]) -> Vec<u8> {
    let fields = fields.map(String::from);
    report_record_owned(&fields)
}

fn report_record_owned(fields: &[String; REPORT_FIELD_COUNT]) -> Vec<u8> {
    let mut record = Vec::new();
    for field in fields {
        record.extend_from_slice(field.as_bytes());
        record.push(0);
    }
    record
}

fn report_with_cwd(cwd: &str) -> ShellReport {
    ShellReport {
        shell: ShellDescriptor {
            shell_type: ShellType::Zsh,
            integration_version: Some(1),
            capabilities: ShellCapabilities {
                reports_cwd: true,
                reports_command_line: false,
                reports_cursor: false,
                reports_prompt_phase: true,
                reports_running_command: false,
            },
        },
        cwd: Some(cwd.into()),
        prompt_phase: PromptPhase::AtPrompt,
        current_command_line: None,
        running_command: None,
    }
}

#[test]
fn parses_a_fragmented_record() {
    let record = report_record(&[
        REPORT_MAGIC_V1,
        "zsh",
        "1",
        "cwd,command_line,cursor,prompt_phase",
        "/tmp/example",
        "editing",
        "1",
        "echo 日",
        "6",
    ]);
    let mut parser = RecordParser::default();
    let mut reports = Vec::new();
    for chunk in record.chunks(3) {
        reports.append(&mut parser.push(chunk));
    }
    assert_eq!(reports.len(), 1);
    let report = reports.pop().unwrap();
    assert_eq!(report.shell.shell_type, ShellType::Zsh);
    assert_eq!(report.shell.integration_version, Some(1));
    assert_eq!(report.cwd.as_deref(), Some("/tmp/example"));
    assert_eq!(report.prompt_phase, PromptPhase::Editing);
    let command_line = report
        .current_command_line
        .expect("reported active line should be retained");
    assert_eq!(command_line.text, "echo 日");
    assert_eq!(command_line.cursor_scalar_offset, Some(6));
}

#[test]
fn rejects_malformed_records_without_delivery() {
    let mut parser = RecordParser::default();
    let record = report_record(&[
        REPORT_MAGIC_V1,
        "zsh",
        "1",
        "command_line,cursor",
        "",
        "unknown",
        "1",
        "日",
        "2",
    ]);
    let reports = parser.push(&record);

    assert!(reports.is_empty());
}

#[test]
fn discards_oversized_records_and_resynchronizes() {
    let mut parser = RecordParser::default();
    let oversized_line = "x".repeat(MAX_COMMAND_LINE_BYTES + 1);
    let oversized = report_record_owned(&[
        REPORT_MAGIC_V1.into(),
        "bash".into(),
        "1".into(),
        "command_line".into(),
        String::new(),
        "unknown".into(),
        "1".into(),
        oversized_line,
        String::new(),
    ]);
    let valid = report_record(&[
        REPORT_MAGIC_V1,
        "bash",
        "1",
        "cwd,prompt_phase",
        "/tmp",
        "at_prompt",
        "0",
        "",
        "",
    ]);
    let mut reports = parser.push(&oversized);
    reports.append(&mut parser.push(&valid));

    assert_eq!(reports.len(), 1);
    assert_eq!(reports[0].cwd.as_deref(), Some("/tmp"));
}

#[test]
fn accepts_an_empty_active_command_line() {
    let mut parser = RecordParser::default();
    let record = report_record(&[
        REPORT_MAGIC_V1,
        "zsh",
        "1",
        "command_line,cursor,prompt_phase",
        "",
        "editing",
        "1",
        "",
        "0",
    ]);
    let mut reports = parser.push(&record);

    let command_line = reports
        .pop()
        .expect("empty active line is still a report")
        .current_command_line
        .expect("empty active line should be present");
    assert_eq!(command_line.text, "");
    assert_eq!(command_line.cursor_scalar_offset, Some(0));
}

#[test]
fn parses_a_v2_running_command_from_the_phase_exclusive_active_text() {
    let mut parser = RecordParser::default();
    let record = report_record(&[
        REPORT_MAGIC_V2,
        "zsh",
        "2",
        "cwd,command_line,cursor,prompt_phase,running_command",
        "/workspace",
        "running",
        "1",
        "cargo test --workspace",
        "",
    ]);
    let mut reports = parser.push(&record);

    let report = reports.pop().expect("v2 report should be accepted");
    assert_eq!(report.shell.integration_version, Some(2));
    assert!(report.shell.capabilities.reports_running_command);
    assert_eq!(report.current_command_line, None);
    assert_eq!(
        report.running_command.as_deref(),
        Some("cargo test --workspace")
    );
}

#[test]
fn v2_rejects_running_command_text_outside_running_phase() {
    let mut parser = RecordParser::default();
    let record = report_record(&[
        REPORT_MAGIC_V2,
        "zsh",
        "2",
        "cwd,prompt_phase,running_command",
        "/workspace",
        "at_prompt",
        "1",
        "cargo test",
        "",
    ]);
    let reports = parser.push(&record);

    assert!(reports.is_empty());
}

#[test]
fn v2_rejects_a_running_summary_without_its_advertised_capability() {
    let mut parser = RecordParser::default();
    let record = report_record(&[
        REPORT_MAGIC_V2,
        "zsh",
        "2",
        "cwd,prompt_phase",
        "/workspace",
        "running",
        "1",
        "cargo test",
        "",
    ]);
    let reports = parser.push(&record);

    assert!(reports.is_empty());
}

#[test]
fn v2_omits_invalid_running_command_text_without_dropping_the_running_phase() {
    let mut parser = RecordParser::default();
    let record = report_record(&[
        REPORT_MAGIC_V2,
        "zsh",
        "2",
        "prompt_phase,running_command",
        "",
        "running",
        "1",
        "cargo\ntest",
        "",
    ]);
    let mut reports = parser.push(&record);

    let report = reports.pop().expect("running report should be retained");
    assert_eq!(report.prompt_phase, PromptPhase::Running);
    assert_eq!(report.running_command, None);
}

#[test]
fn v2_omits_an_overlong_running_command_without_dropping_the_running_phase() {
    let mut parser = RecordParser::default();
    let overlong_command = "x".repeat(MAX_RUNNING_COMMAND_BYTES + 1);
    let record = report_record(&[
        REPORT_MAGIC_V2,
        "zsh",
        "2",
        "prompt_phase,running_command",
        "",
        "running",
        "1",
        &overlong_command,
        "",
    ]);
    let mut reports = parser.push(&record);

    let report = reports.pop().expect("running report should be retained");
    assert_eq!(report.prompt_phase, PromptPhase::Running);
    assert_eq!(report.running_command, None);
}

#[test]
fn dispatcher_coalesces_reports_while_delivery_is_rate_limited() {
    let mut dispatcher = ReportDispatcher::new(1_000);
    assert!(matches!(dispatcher.poll(1_000), Delivery::Wait));

    dispatcher.submit(report_with_cwd("/first"));
    match dispatcher.poll(1_000) {
        Delivery::Deliver(report) => assert_eq!(report.cwd.as_deref(), Some("/first")),
        _ => panic!("first report should be delivered"),
    }
    dispatcher.submit(report_with_cwd("/stale"));
    dispatcher.submit(report_with_cwd("/latest"));
    dispatcher.delivered(1_000);

    assert!(matches!(
        dispatcher.poll(1_010),
        Delivery::WaitAtMost { milliseconds: 40 }
    ));
    match dispatcher.poll(1_000 + REPORT_DELIVERY_INTERVAL_MS) {
        Delivery::Deliver(report) => assert_eq!(report.cwd.as_deref(), Some("/latest")),
        _ => panic!("latest coalesced report should be delivered"),
    }

    dispatcher.stop();
    dispatcher.submit(report_with_cwd("/late"));
    assert!(matches!(dispatcher.poll(9_000), Delivery::Stop));
}

#[test]
fn malformed_fields_are_refused_one_by_one() {
    let good = ["rmux-shell-v1", "fish", "", "cwd", "/", "unknown", "0", "", ""];
    let fields = |changed: usize, value: &str| -> Vec<Vec<u8>> {
        let mut list: Vec<Vec<u8>> = good.iter().map(|field| field.as_bytes().to_vec()).collect();
        list[changed] = value.as_bytes().to_vec();
        list
    };
    assert!(parse_report(&fields(1, "fish")).is_some());
    assert!(parse_report(&fields(0, "rmux-shell-v3")).is_none());
    assert!(parse_report(&fields(1, "tcsh")).is_none());
    assert!(parse_report(&fields(2, "65536")).is_none());
    assert!(parse_report(&fields(2, "+7")).is_some());
    assert!(parse_report(&fields(3, "cwd,cwd")).is_none());
    assert!(parse_report(&fields(3, "color")).is_none());
    assert!(parse_report(&fields(5, "sleeping")).is_none());
    assert!(parse_report(&fields(6, "2")).is_none());
    assert!(parse_report(&fields(8, "0")).is_none());
    let mut invalid = fields(4, "/");
    invalid[4] = vec![0xff];
    assert!(parse_report(&invalid).is_none());
    invalid.pop();
    assert!(parse_report(&invalid).is_none());
}

#[test]
fn records_are_read_whatever_their_chunks() {
    let first = report_record(&["rmux-shell-v1", "sh", "", "cwd,prompt_phase", "/a", "at_prompt", "0", "", ""]);
    let second = report_record(&["rmux-shell-v1", "sh", "", "cwd,prompt_phase", "/b", "at_prompt", "0", "", ""]);
    let stream: Vec<u8> = [first, second].concat();
    for size in 1..stream.len() {
        let mut parser = RecordParser::default();
        let mut seen: Vec<String> = Vec::new();
        for chunk in stream.chunks(size) {
            for report in parser.push(chunk) {
                seen.push(report.cwd.unwrap());
            }
        }
        assert_eq!(seen, vec!["/a", "/b"]);
    }
}

#[test]
fn fragmented_query_is_consumed_without_losing_surrounding_output() {
    for split in 0..=4 {
        let mut startup = StartupOutput::default();
        let query = b"\x1b[6n";
        assert!(startup.push(b"prefix").unwrap().is_none());
        let first = startup.push(&query[..split]).unwrap();
        if split == 4 {
            assert_eq!(first.unwrap(), b"prefix");
        } else {
            assert!(first.is_none());
            let tail = [&query[split..], b"suffix"].concat();
            assert_eq!(startup.push(&tail).unwrap().unwrap(), b"prefixsuffix");
        }
    }
}

#[test]
fn startup_lets_the_same_through_however_it_is_cut() {
    let output = b"before\x1b[6nafter\x1b[6n";
    let mut whole = StartupOutput::default();
    let expected = whole.push(output).unwrap().unwrap();
    assert_eq!(expected, b"beforeafter\x1b[6n");
    for cut in 10..output.len() {
        let mut startup = StartupOutput::default();
        let mut passed = startup.push(&output[..cut]).unwrap().unwrap();
        passed.extend_from_slice(&output[cut..]);
        assert_eq!(passed, expected);
    }
}

#[test]
fn unrelated_sequences_do_not_complete_startup_and_output_is_bounded() {
    let mut startup = StartupOutput::default();
    assert!(startup.push(b"\x1b[?6n\x1b[5n").unwrap().is_none());
    assert!(startup.push(&vec![b'x'; MAX_STARTUP_BYTES]).is_err());
}

#[test]
fn too_much_startup_output_is_explained() {
    let mut startup = StartupOutput::default();
    assert_eq!(startup.push(&vec![b'x'; MAX_STARTUP_BYTES + 1]), Err(StartupError::TooMuchOutput));
}

#[test]
fn report_pipes_have_names_of_their_own() {
    assert_eq!(fifo_path("/run/rmux", "42"), "/run/rmux/rmux-shell-42.fifo");
    let drawn = draw_fifo_path("/run/rmux/");
    assert!(drawn.starts_with("/run/rmux/rmux-shell-"));
    assert_eq!(drawn.len(), "/run/rmux/rmux-shell-".len() + 36 + ".fifo".len());
    assert_ne!(drawn, draw_fifo_path("/run/rmux/"));
}

#[test]
fn a_pipe_is_made_under_a_free_name() {
    assert_eq!(after_fifo_attempt(FifoAttempt::Made, CREATE_ATTEMPTS), FifoStep::Use);
    let mut left = CREATE_ATTEMPTS;
    let mut draws = 0;
    let error = loop {
        match after_fifo_attempt(FifoAttempt::Exists, left) {
            FifoStep::DrawAgain { attempts_left } => {
                left = attempts_left;
                draws += 1;
            }
            FifoStep::Fail(error) => break error,
            FifoStep::Use => panic!("nothing was made"),
        }
    };
    assert_eq!(draws, 7);
    assert_eq!(
        error.message(),
        "could not create shell report FIFO: could not allocate a unique shell report FIFO name"
    );
    assert_eq!(
        after_fifo_attempt(FifoAttempt::Failed("denied".into()), 8),
        FifoStep::Fail(ShellReporterError::Create("denied".into()))
    );
}

#[test]
fn a_reader_is_woken_once() {
    assert_eq!(after_wake(WakeWrite::Written { count: 1 }), Some(Ok(())));
    assert_eq!(after_wake(WakeWrite::WouldBlock), Some(Ok(())));
    assert_eq!(after_wake(WakeWrite::Interrupted), None);
    assert_eq!(
        after_wake(WakeWrite::Written { count: 0 }),
        Some(Err(ShellReporterError::Wake("shell report wake byte was not written".into())))
    );
    assert_eq!(
        after_wake(WakeWrite::Failed("gone".into())).unwrap().unwrap_err().message(),
        "could not wake shell report reader: gone"
    );
}

#[test]
fn the_first_failure_of_a_shutdown_is_reported() {
    assert_eq!(shutdown_result(Ok(()), Ok(()), Ok(()), Ok(())), Ok(()));
    assert_eq!(
        shutdown_result(
            Ok(()),
            Err(ShellReporterError::ReaderThreadPanicked),
            Err(ShellReporterError::DeliveryThreadPanicked),
            Ok(())
        ),
        Err(ShellReporterError::ReaderThreadPanicked)
    );
    assert_eq!(
        ShellReporterError::DeliveryThreadPanicked.message(),
        "shell report delivery thread panicked"
    );
    assert_eq!(
        shutdown_result(Ok(()), Ok(()), Ok(()), Err(ShellReporterError::Cleanup("busy".into())))
            .unwrap_err()
            .message(),
        "could not remove shell report FIFO: busy"
    );
    assert_eq!(
        ShellReporterError::Open("x".into()).message(),
        "could not open shell report FIFO: x"
    );
    assert_eq!(
        ShellReporterError::ReaderThread("x".into()).message(),
        "could not start shell report reader: x"
    );
    assert_eq!(
        ShellReporterError::DeliveryThread("x".into()).message(),
        "could not start shell report delivery thread: x"
    );
    assert_eq!(
        ShellReporterError::ReaderThreadPanicked.message(),
        "shell report reader thread panicked"
    );
}
