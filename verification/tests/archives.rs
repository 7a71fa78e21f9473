use rmux::client_archive::{
    bounded_millis, is_expired, list_at, now_ms, record_at, record_now, ArchiveStore, ArchivedPane,
    SessionArchive, RETENTION_MS,
};
use rmux::daemon_archive::{
    archive_at, available_at, confirm_at, find_terminal, list_entry, sort_archives,
    terminal_file_name, ArchiveError, ArchiveStore as DaemonStore, ArchivedTerminalInfo,
    ListedArchive, SessionArchive as DaemonArchive, TerminalEndReason, DAY_MS,
};
use rmux::layout::ViewLayout;
use rmux::proto::{SessionInfo, SessionStatus, TerminalSize};
use rmux::topology::{TerminalInfo, ViewInfo};
use sha2::Digest as _;

fn pane(id: &str, lines: &[&str]) -> ArchivedPane {
    ArchivedPane {
        terminal_id: id.into(),
        reason: "Missing".into(),
        lines: lines.iter().map(|line| line.to_string()).collect(),
    }
}

fn record(host_key: &str, terminals: Vec<ArchivedPane>) -> SessionArchive {
    SessionArchive {
        session_id: "missing-session".into(),
        name: "old shell".into(),
        host_key: host_key.into(),
        archived_at_ms: 0,
        expires_at_ms: 0,
        terminals,
    }
}

#[test]
fn local_records_are_host_scoped_and_expire() {
    let store = ArchiveStore::new("/data".into());
    let first = store.record_path("offline-host", "missing-session");
    let second = store.record_path("another-host", "missing-session");
    assert_ne!(first, second);
    assert_eq!(first.len(), "/data/".len() + 64 + ".json".len());

    let now = 1_000_000;
    let one = record_at(record("offline-host", vec![pane("pane", &["final output"])]), None, now);
    let two = record_at(record("another-host", vec![pane("pane", &["final output"])]), None, now);
    let (archives, gone) = list_at(vec![(first.clone(), one), (second, two)], now + 1);
    assert_eq!(archives.len(), 2);
    assert!(gone.is_empty());
    assert_eq!(archives[0].terminals[0].lines, ["final output"]);
    assert_eq!(archives[0].expires_at_ms - archives[0].archived_at_ms, 7 * 86_400_000);

    let mut old = record("offline-host", Vec::new());
    old.expires_at_ms = 1;
    assert!(is_expired(&old, now));
    let (archives, gone) = list_at(vec![(first.clone(), old)], now);
    assert!(archives.is_empty());
    assert_eq!(gone, vec![first]);
}

#[test]
fn records_are_named_by_a_digest() {
    let store = ArchiveStore::new("/data".into());
    let digest = sha2::Sha256::digest(b"host\0session");
    let hex: String = digest.iter().map(|byte| format!("{byte:02x}")).collect();
    assert_eq!(store.record_path("host", "session"), format!("/data/{hex}.json"));
    assert_eq!(store.keyed_path("key"), "/data/key.json");
}

#[test]
fn clients_keep_their_archives_apart() {
    assert_eq!(
        ArchiveStore::for_client(Some("/home/me/.local/share".into()), "tui").unwrap().directory(),
        "/home/me/.local/share/rmux/tui/archives"
    );
    assert_eq!(
        ArchiveStore::for_client(None, "tui").map(|_| ()),
        Err("Local data directory unavailable")
    );
}

#[test]
fn what_was_seen_before_is_not_lost() {
    let earlier = record_at(
        record("host", vec![pane("a", &["kept"]), pane("b", &["older"])]),
        None,
        1_000,
    );
    let merged = record_at(
        record("host", vec![pane("a", &[]), pane("c", &["new"])]),
        Some(earlier),
        2_000,
    );
    let shown: Vec<(&str, Vec<&str>)> = merged
        .terminals
        .iter()
        .map(|pane| {
            (pane.terminal_id.as_str(), pane.lines.iter().map(|line| line.as_str()).collect())
        })
        .collect();
    assert_eq!(shown, vec![("a", vec!["kept"]), ("c", vec!["new"]), ("b", vec!["older"])]);
    assert_eq!(merged.archived_at_ms, 2_000);
    assert_eq!(merged.expires_at_ms, 2_000 + RETENTION_MS);
}

#[test]
fn the_clock_is_bounded() {
    assert_eq!(bounded_millis(Some(7)), 7);
    assert_eq!(bounded_millis(Some(u128::MAX)), u64::MAX);
    assert_eq!(bounded_millis(None), 0);
    let before = now_ms();
    assert!(before > 1_600_000_000_000);
    let written = record_now(record("host", Vec::new()), None);
    assert!(written.archived_at_ms >= before);
    assert!(written.archived_at_ms <= now_ms());
}

fn session(status: SessionStatus) -> SessionInfo {
    SessionInfo {
        session_id: "11111111-2222-3333-4444-555555555555".into(),
        name: "work".into(),
        status,
        created_at_ms: 1,
        next_sequence: 2,
        terminal_size: TerminalSize::default(),
    }
}

fn view(ids: &[&str]) -> ViewInfo {
    ViewInfo {
        session_name: "work".into(),
        session_id: "11111111-2222-3333-4444-555555555555".into(),
        view_id: "view".into(),
        revision: ids.len() as u64,
        canvas_size: TerminalSize::default(),
        panes: Vec::new(),
        layout: ViewLayout::Terminal { terminal_id: ids[0].into() },
        terminals: ids
            .iter()
            .map(|id| TerminalInfo {
                terminal_id: id.to_string(),
                name: id.to_string(),
                created_at_ms: 1,
                next_sequence: 0,
                terminal_size: TerminalSize::default(),
            })
            .collect(),
    }
}

fn ended(id: &str, code: u32) -> ArchivedTerminalInfo {
    ArchivedTerminalInfo {
        terminal_id: id.into(),
        ended_at_ms: 5,
        reason: TerminalEndReason::Exited { exit_code: Some(code) },
    }
}

fn archive(ids: &[&str]) -> DaemonArchive {
    DaemonArchive {
        session: session(SessionStatus::Running),
        view: view(ids),
        terminals: Vec::new(),
        archived_at_ms: 0,
        expires_at_ms: 0,
    }
}

#[test]
fn ended_terminals_gather_in_an_archive() {
    let first = archive_at(archive(&["a", "b"]), None, &vec![ended("a", 1)], false, 100, DAY_MS);
    assert_eq!(first.session.status, SessionStatus::Exited);
    assert_eq!(first.archived_at_ms, 0);
    assert_eq!(first.expires_at_ms, 100 + DAY_MS);
    assert!(matches!(list_entry(first, 100), ListedArchive::Hidden));

    let first = archive_at(archive(&["a", "b"]), None, &vec![ended("a", 1)], false, 100, DAY_MS);
    let whole = archive_at(archive(&["b"]), Some(first), &vec![ended("b", 2)], true, 200, DAY_MS);
    let ids: Vec<&str> =
        whole.terminals.iter().map(|terminal| terminal.terminal_id.as_str()).collect();
    assert_eq!(ids, vec!["a", "b"]);
    // The view as it was before terminals merely ended is the one shown.
    assert_eq!(whole.view, view(&["a", "b"]));
    assert_eq!(whole.archived_at_ms, 200);
    assert_eq!(find_terminal(&whole, "b"), Ok(ended("b", 2)));
    assert_eq!(find_terminal(&whole, "c"), Err(ArchiveError::TerminalNotFound));
    assert!(matches!(list_entry(whole, 200 + DAY_MS), ListedArchive::Removed));
}

#[test]
fn a_terminal_that_ends_again_is_recorded_anew() {
    let first = archive_at(archive(&["a"]), None, &vec![ended("a", 1)], false, 100, DAY_MS);
    let second = archive_at(archive(&["a"]), Some(first), &vec![ended("a", 7)], true, 200, DAY_MS);
    assert_eq!(second.terminals, vec![ended("a", 7)]);
}

#[test]
fn archives_are_available_until_they_expire() {
    let stored = || archive_at(archive(&["a"]), None, &Vec::new(), true, 100, 50);
    assert!(available_at(stored(), 149).is_ok());
    assert_eq!(available_at(stored(), 150).map(|_| ()), Err(ArchiveError::Unavailable));
    assert_eq!(confirm_at(stored(), 140, 50), stored());
}

#[test]
fn an_interrupted_archive_is_completed_by_the_next_daemon() {
    let running = ArchivedTerminalInfo {
        terminal_id: "b".into(),
        ended_at_ms: 0,
        reason: TerminalEndReason::Exited { exit_code: None },
    };
    let recording =
        archive_at(archive(&["a", "b"]), None, &vec![ended("a", 1), running], false, 100, 50);
    let confirmed = confirm_at(recording, 140, 50);
    assert_eq!(confirmed.archived_at_ms, 140);
    assert_eq!(confirmed.expires_at_ms, 190);
    assert_eq!(confirmed.terminals[0], ended("a", 1));
    assert_eq!(confirmed.terminals[1].ended_at_ms, 140);
    assert_eq!(confirmed.terminals[1].reason, TerminalEndReason::Missing);
    assert!(available_at(confirmed, 150).is_ok());
}

#[test]
fn archives_are_listed_newest_first() {
    let at = |time| archive_at(archive(&["a"]), None, &Vec::new(), true, time, 50);
    let times: Vec<u64> = sort_archives(vec![at(3), at(9), at(5)])
        .iter()
        .map(|archive| archive.archived_at_ms)
        .collect();
    assert_eq!(times, vec![9, 5, 3]);
}

#[test]
fn archives_of_one_time_keep_their_order() {
    let at = |name: &str, time| {
        let mut archive = archive_at(archive(&["a"]), None, &Vec::new(), true, time, 50);
        archive.session.name = name.into();
        archive
    };
    let names: Vec<String> = sort_archives(vec![at("a", 3), at("b", 9), at("c", 3), at("d", 9)])
        .into_iter()
        .map(|archive| archive.session.name)
        .collect();
    assert_eq!(names, ["b", "d", "a", "c"]);

    let kept = |host: &str, time| (host.to_string(), record_at(record(host, Vec::new()), None, time));
    let (listed, gone) = list_at(vec![kept("a", 3), kept("b", 9), kept("c", 3), kept("d", 9)], 10);
    let hosts: Vec<String> = listed.into_iter().map(|record| record.host_key).collect();
    assert_eq!(hosts, ["b", "d", "a", "c"]);
    assert!(gone.is_empty());
}

#[test]
fn archives_are_stored_by_identifier() {
    let store = DaemonStore::new("/archives".into(), 7);
    assert_eq!(store.directory(), "/archives");
    assert!(store.holds_archive("11111111-2222-3333-4444-555555555555"));
    assert!(!store.holds_archive("lost+found"));
    let id = "11111111-2222-3333-4444-555555555555";
    let path = store.path(id).unwrap();
    assert!(path.starts_with("/archives/"));
    assert!(path.contains(id));
    assert_eq!(store.path("../escape"), Err(ArchiveError::InvalidArchiveId));
    assert_eq!(store.checked_path("x", false), Err(ArchiveError::InvalidArchiveId));
    let saved = store.save(archive(&["a"]), None, &Vec::new(), true).unwrap();
    assert_eq!(saved.expires_at_ms - saved.archived_at_ms, 7 * DAY_MS);
    assert!(store.get(saved).is_ok());
    let saved = store.save(archive(&["a"]), None, &Vec::new(), true).unwrap();
    assert_eq!(store.terminal(&saved, "not an id").map(|_| ()), Err(ArchiveError::InvalidTerminalId));
    assert_eq!(store.confirm(saved).session.status, SessionStatus::Exited);
    let mut odd = archive(&["a"]);
    odd.session.session_id = "odd".into();
    assert_eq!(
        store.save(odd, None, &Vec::new(), true).map(|_| ()),
        Err(ArchiveError::InvalidArchiveId)
    );
    assert!(!terminal_file_name(id).is_empty());
    assert!(!ArchiveError::Unavailable.message().is_empty());
}
