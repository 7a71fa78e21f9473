use rmux::journal::{JournalError, OutputChunk, OutputJournal};
use rmux::proto::ServerMessage;

#[test]
fn journal_assigns_byte_sequences() {
    let mut journal = OutputJournal::new(64);
    let first = journal.append(b"abc").unwrap();
    let second = journal.append(b"de").unwrap();

    assert_eq!(first.sequence_start, 0);
    assert_eq!(first.sequence_end(), 3);
    assert_eq!(second.sequence_start, 3);
    assert_eq!(second.sequence_end(), 5);
    assert_eq!(journal.next_sequence(), 5);
}

#[test]
fn journal_evicts_only_the_required_prefix() {
    let mut journal = OutputJournal::new(5);
    journal.append(b"abc");
    journal.append(b"defg");

    let snapshot = journal.snapshot_from(None).unwrap();
    assert_eq!(snapshot.earliest_sequence, 2);
    assert_eq!(snapshot.next_sequence, 7);
    assert_eq!(snapshot.chunks[0].data, b"c");
    assert_eq!(snapshot.chunks[1].data, b"defg");
}

#[test]
fn old_resume_sequence_reports_a_history_gap() {
    let mut journal = OutputJournal::new(4);
    journal.append(b"abcdef");

    let snapshot = journal.snapshot_from(Some(1)).unwrap();
    assert!(snapshot.history_gap);
    assert_eq!(snapshot.replay_from, 2);
    assert_eq!(snapshot.chunks[0].data, b"cdef");
}

#[test]
fn resume_can_begin_inside_a_chunk() {
    let mut journal = OutputJournal::new(64);
    journal.append(b"abcdef");

    let snapshot = journal.snapshot_from(Some(3)).unwrap();
    assert!(!snapshot.history_gap);
    assert_eq!(snapshot.chunks[0].sequence_start, 3);
    assert_eq!(snapshot.chunks[0].data, b"def");
}

#[test]
fn sequence_ahead_is_rejected() {
    let mut journal = OutputJournal::new(64);
    journal.append(b"abc");

    assert_eq!(
        journal.snapshot_from(Some(4)),
        Err(JournalError::SequenceAhead { requested: 4, next: 3 })
    );
}

#[test]
fn a_sequence_ahead_is_explained() {
    assert_eq!(
        JournalError::SequenceAhead { requested: 4, next: 3 }.message(),
        "requested sequence 4 is ahead of the next sequence 3"
    );
}

#[test]
fn empty_output_takes_no_sequence() {
    let mut journal = OutputJournal::new(8);
    assert_eq!(journal.append(b""), None);
    assert_eq!(journal.next_sequence(), 0);
    assert_eq!(journal.earliest_sequence(), 0);
    let snapshot = journal.snapshot_from(Some(0)).unwrap();
    assert!(snapshot.chunks.is_empty());
    assert!(!snapshot.history_gap);
}

#[test]
fn a_journal_keeps_at_least_one_byte() {
    let mut journal = OutputJournal::new(0);
    journal.append(b"xyz");
    let snapshot = journal.snapshot_from(None).unwrap();
    assert_eq!(snapshot.earliest_sequence, 2);
    assert_eq!(snapshot.chunks[0].data, b"z");
}

#[test]
fn a_journal_without_a_practical_limit_keeps_everything() {
    let mut journal = OutputJournal::new(usize::MAX);
    journal.append(b"one");
    journal.append(b"two");
    let snapshot = journal.snapshot_from(None).unwrap();
    assert_eq!(snapshot.earliest_sequence, 0);
    assert_eq!(snapshot.next_sequence, 6);
    assert_eq!(snapshot.chunks.len(), 2);
}

#[test]
fn a_snapshot_replays_what_was_written() {
    let mut journal = OutputJournal::new(6);
    for part in ["one", "two", "three"] {
        journal.append(part.as_bytes());
    }
    let snapshot = journal.snapshot_from(Some(6)).unwrap();
    let mut replayed: Vec<u8> = Vec::new();
    let mut next = snapshot.replay_from;
    for chunk in &snapshot.chunks {
        assert_eq!(chunk.sequence_start, next);
        next = chunk.sequence_end();
        replayed.extend_from_slice(&chunk.data);
    }
    assert_eq!(next, 11);
    assert_eq!(replayed, b"three");
    assert_eq!(journal.earliest_sequence(), 5);
}

#[test]
fn a_chunk_is_told_with_both_its_ends() {
    let chunk = OutputChunk { sequence_start: 7, data: b"abc".to_vec() };
    assert_eq!(
        chunk.into_server_message(),
        ServerMessage::Output { sequence_start: 7, sequence_end: 10, data: b"abc".to_vec() }
    );
}

#[test]
fn a_chunk_is_cut_only_where_it_reaches() {
    let chunk = OutputChunk { sequence_start: 7, data: b"abc".to_vec() };
    assert_eq!(chunk.slice_from(5), Some(chunk.clone()));
    assert_eq!(
        chunk.slice_from(9),
        Some(OutputChunk { sequence_start: 9, data: b"c".to_vec() })
    );
    assert_eq!(chunk.slice_from(10), None);
}
