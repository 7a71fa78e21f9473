use rmux::lease::{AttachmentLeaseRegistry, AttachmentLeases};
use rmux::manager::{sort_sessions, SessionManager, SessionManagerError};
use rmux::names::{validate_session_name, NameError, NameRegistry};
use rmux::proto::{LeaseKind, LeaseStatus, SessionInfo, SessionStatus, TerminalSize};

#[test]
fn validates_safe_session_names() {
    assert!(validate_session_name("work-1.main").is_ok());
    assert!(validate_session_name("").is_err());
    assert!(validate_session_name("contains spaces").is_err());
    assert!(validate_session_name("../socket").is_err());
}

#[test]
fn names_are_bounded_in_bytes() {
    assert!(validate_session_name(&"x".repeat(64)).is_ok());
    assert_eq!(
        validate_session_name(&"x".repeat(65)),
        Err("session names must contain between 1 and 64 bytes")
    );
    assert_eq!(
        validate_session_name("é"),
        Err("session names may contain only ASCII letters, digits, '-', '_', and '.'")
    );
}

#[test]
fn attachment_leases_do_not_transfer_implicitly() {
    let mut leases = AttachmentLeaseRegistry::default();

    let first = leases.request_initial("first", true, true);
    assert_eq!(
        first,
        AttachmentLeases {
            input: LeaseStatus { held: true, owned_by_client: true },
            layout: LeaseStatus { held: true, owned_by_client: true },
        }
    );

    let second = leases.request_initial("second", true, true);
    assert_eq!(
        second,
        AttachmentLeases {
            input: LeaseStatus { held: true, owned_by_client: false },
            layout: LeaseStatus { held: true, owned_by_client: false },
        }
    );
    assert_eq!(
        leases.acquire("second", LeaseKind::Input),
        LeaseStatus { held: true, owned_by_client: false }
    );
}

#[test]
fn attachment_release_makes_only_its_leases_available() {
    let mut leases = AttachmentLeaseRegistry::default();
    let _ = leases.request_initial("input", true, false);
    let _ = leases.request_initial("layout", false, true);

    leases.release_attachment("input");
    assert_eq!(
        leases.acquire("viewer", LeaseKind::Input),
        LeaseStatus { held: true, owned_by_client: true }
    );
    assert_eq!(
        leases.status("viewer", LeaseKind::Layout),
        LeaseStatus { held: true, owned_by_client: false }
    );

    assert_eq!(
        leases.release("layout", LeaseKind::Layout),
        LeaseStatus { held: false, owned_by_client: false }
    );
    assert_eq!(
        leases.acquire("viewer", LeaseKind::Layout),
        LeaseStatus { held: true, owned_by_client: true }
    );
}

#[test]
fn only_the_owner_gives_a_lease_up() {
    let mut leases = AttachmentLeaseRegistry::default();
    leases.acquire("owner", LeaseKind::Input);
    assert_eq!(
        leases.release("other", LeaseKind::Input),
        LeaseStatus { held: true, owned_by_client: false }
    );
    assert_eq!(
        leases.attachment_leases("owner"),
        AttachmentLeases {
            input: LeaseStatus { held: true, owned_by_client: true },
            layout: LeaseStatus { held: false, owned_by_client: false },
        }
    );
}

#[test]
fn automatic_names_are_monotonic_and_skip_taken_ones() {
    let mut manager = SessionManager::new(64, 16);
    assert_eq!(manager.reserve_name(Some("session-2".to_owned())), Ok("session-2".to_owned()));
    assert_eq!(manager.reserve_name(None), Ok("session-1".to_owned()));
    manager.abandon_name("session-1");
    assert_eq!(manager.reserve_name(None), Ok("session-3".to_owned()));
    assert_eq!(manager.reserve_name(None), Ok("session-4".to_owned()));
}

#[test]
fn automatic_names_use_the_final_sequence_before_exhaustion() {
    let mut names = NameRegistry::starting_at(Some(u64::MAX));
    let live: Vec<String> = Vec::new();

    let final_name = names
        .acquire_automatic(&live)
        .expect("the final automatic name should remain usable");
    assert_eq!(final_name, format!("session-{}", u64::MAX));
    names.release(&final_name);

    assert_eq!(names.acquire_automatic(&live), Err(NameError::AutomaticNameExhausted));
}

#[test]
fn a_chosen_name_is_checked() {
    let mut manager = SessionManager::new(64, 16);
    assert_eq!(manager.reserve_name(Some("work".to_owned())), Ok("work".to_owned()));
    let taken = manager.reserve_name(Some("work".to_owned())).unwrap_err();
    assert_eq!(taken, SessionManagerError::AlreadyExists { name: "work".to_owned() });
    assert_eq!(taken.message(), "a session named 'work' already exists");
    let invalid = manager.reserve_name(Some("no good".to_owned())).unwrap_err();
    assert_eq!(
        invalid.message(),
        "invalid session name: session names may contain only ASCII letters, digits, '-', '_', and '.'"
    );
}

#[test]
fn sessions_are_found_by_identifier_then_by_name() {
    let mut manager = SessionManager::new(64, 16);
    assert!(!manager.ever_had_session());
    let pending = manager.begin_create(Some("work".to_owned())).unwrap();
    let id = pending.session_id.clone();
    assert_eq!(id.len(), 36);
    assert!(manager.resolve("work").is_err());
    let session = manager.finish_create(pending, 1234, TerminalSize::default(), false);
    assert_eq!(session.info().session_id, id);
    assert_eq!(session.info().created_at_ms, 1234);
    assert_eq!(manager.resolve("work"), Ok(id.clone()));
    assert_eq!(manager.resolve(&id), Ok(id.clone()));
    assert_eq!(manager.session_count(), 1);
    assert_eq!(manager.snapshot_for_cooperative_restart(), vec![id.clone()]);
    assert_eq!(
        manager.reserve_name(Some("work".to_owned())),
        Err(SessionManagerError::AlreadyExists { name: "work".to_owned() })
    );
    manager.remove(&id);
    assert_eq!(
        manager.resolve("work"),
        Err(SessionManagerError::NotFound { selector: "work".to_owned() })
    );
    assert!(manager.ever_had_session());
    assert!(manager.reserve_name(Some("work".to_owned())).is_ok());
}

#[test]
fn sessions_draw_different_identifiers() {
    let mut manager = SessionManager::new(64, 16);
    let first = manager.begin_create(None).unwrap();
    let second = manager.begin_create(None).unwrap();
    assert_ne!(first.session_id, second.session_id);
    assert_eq!(first.name, "session-1");
    assert_eq!(second.name, "session-2");
}

#[test]
fn a_chosen_name_alone_decides_about_a_session() {
    let mut manager = SessionManager::new(64, 16);
    let first = manager.begin_create_as("a".to_owned(), Some("work".to_owned())).unwrap();
    assert_eq!((first.session_id.as_str(), first.name.as_str()), ("a", "work"));
    assert_eq!(
        manager.begin_create_as("b".to_owned(), Some("work".to_owned())).map(|_| ()),
        Err(SessionManagerError::AlreadyExists { name: "work".to_owned() })
    );
    manager.finish_create(first, 1, TerminalSize::default(), false);
    // An identifier that is in use changes nothing about the answer.
    for id in ["a", "b"] {
        assert_eq!(
            manager.begin_create_as(id.to_owned(), Some("work".to_owned())).map(|_| ()),
            Err(SessionManagerError::AlreadyExists { name: "work".to_owned() })
        );
        assert!(matches!(
            manager.begin_create_as(id.to_owned(), Some("not ok".to_owned())),
            Err(SessionManagerError::InvalidName { .. })
        ));
    }
    let second = manager.begin_create_as("b".to_owned(), Some("play".to_owned())).unwrap();
    manager.abandon_name(&second.name);
    assert_eq!(manager.session_count(), 1);
    let second = manager.begin_create_as("b".to_owned(), Some("play".to_owned())).unwrap();
    manager.finish_create(second, 2, TerminalSize::default(), false);
    assert_eq!(manager.session_count(), 2);
    assert_eq!(manager.resolve("play"), Ok("b".to_owned()));
    assert_eq!(manager.resolve("work"), Ok("a".to_owned()));
}

fn info(id: &str, name: &str, created_at_ms: u64) -> SessionInfo {
    SessionInfo {
        session_id: id.to_owned(),
        name: name.to_owned(),
        status: SessionStatus::Running,
        created_at_ms,
        next_sequence: 0,
        terminal_size: TerminalSize::default(),
    }
}

#[test]
fn sessions_are_listed_in_order() {
    let listed = sort_sessions(vec![info("3", "c", 5), info("1", "a", 7), info("2", "b", 5)]);
    let names: Vec<&str> = listed.iter().map(|session| session.name.as_str()).collect();
    assert_eq!(names, vec!["b", "c", "a"]);
    assert_eq!(sort_sessions(Vec::new()), Vec::new());
}

#[test]
fn a_released_automatic_name_is_not_given_out_again() {
    let mut names = NameRegistry::default();
    let live: Vec<String> = Vec::new();
    assert_eq!(names.acquire_automatic(&live), Ok("session-1".to_owned()));
    names.release("session-1");
    assert!(!names.is_pending("session-1"));
    assert_eq!(names.acquire_automatic(&live), Ok("session-2".to_owned()));
}
