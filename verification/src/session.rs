//! One terminal session: its terminal, its attachments and who may do what.
use vstd::prelude::*;
use vstd::string::*;

use crate::ids::{hyphenated, plain, random_id, random_token};
use crate::journal::{Chunk, JournalError, JournalSnapshot};
use crate::lease::{AttachmentLeaseRegistry, AttachmentLeases, Leases};
use crate::proto::{
    LeaseKind, LeaseStatus, SessionInfo, SessionStatus, ShellState, TerminalCheckpoint,
    TerminalHistorySnapshot, TerminalSize,
};
use crate::report::ShellReport;
use crate::terminal::{
    a_missed_grid_change_is_restored, home_of, usable_size, ProcessObservation, Terminal,
    TerminalState, TERMINAL_HISTORY_CAPACITY_BYTES,
};
use crate::text::{optional, same_text};

verus! {

/// What happened to a session, as its attachments are told.
#[derive(Debug, Clone, Copy, PartialEq, Eq, Structural)]
pub enum SessionEvent {
    Output,
    /// An authoritative PTY-layout transition placed between raw output ranges.
    PtyGeometryChanged {
        terminal_size: TerminalSize,
        /// The raw-output next offset at the transition.
        observed_sequence: u64,
        /// Internal monotonic ordering for transitions at the same raw boundary.
        geometry_revision: u64,
    },
    Ended { exit_code: Option<u32> },
}

/// Why a session could not be controlled.
#[derive(Debug, PartialEq, Eq)]
pub enum SessionControlError {
    InputLeaseRequired,
    LayoutLeaseRequired,
    /// The system refused, in its own words.
    Io(String),
    /// The terminal refused, in its own words.
    Pty(String),
}

impl SessionControlError {
    pub open spec fn text(self) -> Seq<char> {
        match self {
            SessionControlError::InputLeaseRequired =>
                "this attachment does not own the session input lease"@,
            SessionControlError::LayoutLeaseRequired =>
                "this attachment does not own the session layout lease"@,
            SessionControlError::Io(message) => "I/O error: "@ + message@,
            SessionControlError::Pty(message) => "PTY error: "@ + message@,
        }
    }

    /// The error in words.
    pub fn message(&self) -> (message: String)
        ensures
            message@ == self.text(),
    {
        match self {
            SessionControlError::InputLeaseRequired =>
                "this attachment does not own the session input lease".to_owned(),
            SessionControlError::LayoutLeaseRequired =>
                "this attachment does not own the session layout lease".to_owned(),
            SessionControlError::Io(message) => {
                let mut text = "I/O error: ".to_owned();
                text.append(message.as_str());
                text
            },
            SessionControlError::Pty(message) => {
                let mut text = "PTY error: ".to_owned();
                text.append(message.as_str());
                text
            },
        }
    }
}

#[derive(Debug, Clone, Copy, PartialEq, Eq, Structural)]
pub enum SessionLifecycle {
    Running,
    Ended { exit_code: Option<u32> },
}

/// A logical attachment, reached by its token.
pub struct AttachmentRecord {
    attachment_token: String,
    attachment_id: String,
    generation: u64,
    connected: bool,
}

/// The mathematical content of an [`AttachmentRecord`].
pub struct Attachment {
    pub token: Seq<char>,
    pub id: Seq<char>,
    /// Which transport the attachment is bound to, counted from zero.
    pub generation: u64,
    pub connected: bool,
}

impl View for AttachmentRecord {
    type V = Attachment;

    closed spec fn view(&self) -> Attachment {
        Attachment {
            token: self.attachment_token@,
            id: self.attachment_id@,
            generation: self.generation,
            connected: self.connected,
        }
    }
}

pub open spec fn attachments_of(list: Seq<AttachmentRecord>) -> Seq<Attachment> {
    list.map_values(|record: AttachmentRecord| record@)
}

/// Where the attachment with a token stands in a list.
pub open spec fn position_of(list: Seq<Attachment>, token: Seq<char>) -> Option<int>
    decreases list.len(),
{
    if list.len() == 0 {
        None
    } else if list.last().token == token {
        Some(list.len() - 1)
    } else {
        position_of(list.drop_last(), token)
    }
}

/// Whether every token stands for one attachment.
pub open spec fn distinct_tokens(list: Seq<Attachment>) -> bool {
    forall|i: int, j: int|
        0 <= i < j < list.len() ==> (#[trigger] list[i]).token != (#[trigger] list[j]).token
}

/// A token stands at its position, and nowhere when it has none.
pub proof fn position_facts(list: Seq<Attachment>, token: Seq<char>)
    ensures
        match position_of(list, token) {
            Some(i) => 0 <= i < list.len() && list[i].token == token,
            None => forall|i: int| 0 <= i < list.len() ==> (#[trigger] list[i]).token != token,
        },
    decreases list.len(),
{
    if list.len() > 0 && list.last().token != token {
        position_facts(list.drop_last(), token);
        if position_of(list, token) is None {
            assert forall|i: int| 0 <= i < list.len() implies (#[trigger] list[i]).token
                != token by {
                if i < list.len() - 1 {
                    assert(list.drop_last()[i] == list[i]);
                }
            }
        }
    }
}

/// The attachments and the leases of a session.
#[verifier::ext_equal]
pub struct Clients {
    pub attachments: Seq<Attachment>,
    pub leases: Leases,
}

impl Clients {
    pub open spec fn none() -> Clients {
        Clients { attachments: Seq::empty(), leases: Leases::none() }
    }

    pub open spec fn at(self, token: Seq<char>) -> Option<Attachment> {
        match position_of(self.attachments, token) {
            Some(i) => Some(self.attachments[i]),
            None => None,
        }
    }

    /// Whether some attachment has a token such as one that is drawn.
    pub open spec fn has_drawn_token(self) -> bool {
        exists|token: Seq<char>| #[trigger] plain(token) && self.at(token) is Some
    }

    /// With one more attachment, which asks for leases.
    pub open spec fn joined(
        self,
        id: Seq<char>,
        token: Seq<char>,
        input: bool,
        layout: bool,
    ) -> Clients {
        Clients {
            attachments: self.attachments.push(
                Attachment { token, id, generation: 0, connected: true },
            ),
            leases: self.leases.requested(id, input, layout),
        }
    }

    /// With an attachment bound to a new transport: it keeps its leases, and
    /// earlier transports no longer count.
    pub open spec fn resumed(self, token: Seq<char>) -> Clients {
        match position_of(self.attachments, token) {
            Some(i) => if self.attachments[i].generation == u64::MAX {
                self
            } else {
                Clients {
                    attachments: self.attachments.update(
                        i,
                        Attachment {
                            generation: (self.attachments[i].generation + 1) as u64,
                            connected: true,
                            ..self.attachments[i]
                        },
                    ),
                    ..self
                }
            },
            None => self,
        }
    }

    /// Whether a transport of a given generation is the connected one.
    pub open spec fn is_connected(self, token: Seq<char>, generation: u64) -> bool {
        self.at(token) matches Some(attachment) && attachment.generation == generation
            && attachment.connected
    }

    /// With an attachment's current transport gone. It keeps its leases.
    pub open spec fn suspended(self, token: Seq<char>, generation: u64) -> Clients {
        if self.is_connected(token, generation) {
            let i = position_of(self.attachments, token)->0;
            Clients {
                attachments: self.attachments.update(
                    i,
                    Attachment { connected: false, ..self.attachments[i] },
                ),
                ..self
            }
        } else {
            self
        }
    }

    /// Without an attachment and without its leases.
    pub open spec fn left(self, token: Seq<char>) -> Clients {
        match position_of(self.attachments, token) {
            Some(i) => Clients {
                attachments: self.attachments.remove(i),
                leases: self.leases.without(self.attachments[i].id),
            },
            None => self,
        }
    }

    /// After the reconnect grace of a generation ran out: only an attachment
    /// that is still disconnected in that generation leaves.
    pub open spec fn expired(self, token: Seq<char>, generation: u64) -> Clients {
        match self.at(token) {
            Some(attachment) => if attachment.generation == generation && !attachment.connected {
                self.left(token)
            } else {
                self
            },
            None => self,
        }
    }

    /// After the transport of a generation detached explicitly.
    pub open spec fn closed(self, token: Seq<char>, generation: u64) -> Clients {
        match self.at(token) {
            Some(attachment) => if attachment.generation == generation {
                self.left(token)
            } else {
                self
            },
            None => self,
        }
    }

    pub open spec fn wf(self) -> bool {
        distinct_tokens(self.attachments)
    }
}

/// What a client needs to know of its attachment.
#[derive(Debug, PartialEq, Eq)]
pub struct AttachmentRegistration {
    pub attachment_id: String,
    pub attachment_token: String,
    pub generation: u64,
    pub leases: AttachmentLeases,
}

/// What an attaching client is given of a session.
pub struct AttachSnapshot {
    /// Session metadata captured together with the journal, checkpoint, and
    /// shell snapshot. Later PTY changes are delivered only as ordered stream
    /// events.
    pub session: SessionInfo,
    pub checkpoint: Option<TerminalCheckpoint>,
    /// Internal event ordering state for the checkpoint sent with this snapshot.
    pub checkpoint_geometry_revision: Option<u64>,
    pub journal: JournalSnapshot,
    /// A geometry checkpoint may advance replay past retained raw bytes, and
    /// bounded logical history may have dropped its oldest lines. Either gap is
    /// reported so that a client never presents partial history as complete.
    pub history_gap: bool,
    /// Normalized logical lines that are completely outside the live grid.
    /// Present whenever the attachment also receives a replacing checkpoint.
    pub history: Option<TerminalHistorySnapshot>,
    /// The internal, unredacted state observed together with the journal.
    /// Callers must apply their own attachment visibility policy before sending
    /// it to a client.
    pub shell_state: ShellState,
}

/// What is to be told to the attachments of a session.
pub struct Publication {
    pub event: Option<SessionEvent>,
    pub shell_state: Option<ShellState>,
}

/// One terminal session.
pub struct Session {
    id: String,
    name: String,
    created_at_ms: u64,
    terminal: TerminalState,
    checkpoint_interval_bytes: u64,
    leases: AttachmentLeaseRegistry,
    attachments: Vec<AttachmentRecord>,
    lifecycle: SessionLifecycle,
    process_observation_enabled: bool,
}

impl Session {
    pub closed spec fn id(&self) -> Seq<char> {
        self.id@
    }

    pub closed spec fn name(&self) -> Seq<char> {
        self.name@
    }

    pub closed spec fn created_at(&self) -> u64 {
        self.created_at_ms
    }

    pub closed spec fn terminal(&self) -> TerminalState {
        self.terminal
    }

    pub closed spec fn interval(&self) -> u64 {
        self.checkpoint_interval_bytes
    }

    pub closed spec fn clients(&self) -> Clients {
        Clients { attachments: attachments_of(self.attachments@), leases: self.leases@ }
    }

    pub closed spec fn lifecycle(&self) -> SessionLifecycle {
        self.lifecycle
    }

    pub closed spec fn observes_processes(&self) -> bool {
        self.process_observation_enabled
    }

    /// Whether two states agree on everything but the terminal and the clients.
    pub open spec fn same_identity(&self, other: &Session) -> bool {
        &&& self.id() == other.id()
        &&& self.name() == other.name()
        &&& self.created_at() == other.created_at()
        &&& self.interval() == other.interval()
    }

    pub closed spec fn wf(&self) -> bool {
        self.terminal.wf() && self.clients().wf()
    }

    /// What every well-formed session keeps.
    pub proof fn parts_are_consistent(&self)
        requires
            self.wf(),
        ensures
            self.terminal().wf(),
            self.clients().wf(),
    {
    }

    /// A session around a new terminal.
    pub fn new(
        id: String,
        name: String,
        created_at_ms: u64,
        terminal_size: TerminalSize,
        journal_capacity_bytes: usize,
        checkpoint_interval_bytes: u64,
        process_observation_enabled: bool,
    ) -> (session: Self)
        requires
            usable_size(terminal_size),
        ensures
            session.wf(),
            session.id() == id@,
            session.name() == name@,
            session.created_at() == created_at_ms,
            session.interval() == if checkpoint_interval_bytes == 0 {
                1
            } else {
                checkpoint_interval_bytes
            },
            session.clients() == Clients::none(),
            session.lifecycle() == SessionLifecycle::Running,
            session.observes_processes() == process_observation_enabled,
            session.terminal().journal().next() == 0,
            session.terminal().journal().retained() == Seq::<Chunk>::empty(),
            session.terminal()@ == Terminal::fresh(
                terminal_size,
                TERMINAL_HISTORY_CAPACITY_BYTES as nat,
            ),
            session.terminal().journal().capacity() == if journal_capacity_bytes == 0 {
                1
            } else {
                journal_capacity_bytes as nat
            },
    {
        let session = Session {
            id,
            name,
            created_at_ms,
            terminal: TerminalState::new(
                terminal_size,
                journal_capacity_bytes,
                TERMINAL_HISTORY_CAPACITY_BYTES,
            ),
            checkpoint_interval_bytes: if checkpoint_interval_bytes == 0 {
                1
            } else {
                checkpoint_interval_bytes
            },
            leases: AttachmentLeaseRegistry::default(),
            attachments: Vec::new(),
            lifecycle: SessionLifecycle::Running,
            process_observation_enabled,
        };
        assert(attachments_of(session.attachments@) =~= Seq::empty());
        session
    }

    /// Whether a description fits the session.
    pub open spec fn is_described_by(&self, info: SessionInfo) -> bool {
        &&& info.session_id@ == self.id()
        &&& info.name@ == self.name()
        &&& info.status == SessionStatus::Running
        &&& info.created_at_ms == self.created_at()
        &&& info.next_sequence == self.terminal().journal().next()
        &&& info.terminal_size == self.terminal()@.display.size
    }

    pub fn info(&self) -> (info: SessionInfo)
        ensures
            self.is_described_by(info),
    {
        SessionInfo {
            session_id: self.id.clone(),
            name: self.name.clone(),
            status: SessionStatus::Running,
            created_at_ms: self.created_at_ms,
            next_sequence: self.terminal.next_sequence(),
            terminal_size: self.terminal.size(),
        }
    }

    /// Whether terminal events may be subscribed to; the exit code when the
    /// session has already ended.
    pub fn subscribe_events(&self) -> (result: Result<(), Option<u32>>)
        ensures
            match self.lifecycle() {
                SessionLifecycle::Running => result is Ok,
                SessionLifecycle::Ended { exit_code } => result == Err::<(), Option<u32>>(
                    exit_code,
                ),
            },
    {
        match self.lifecycle {
            SessionLifecycle::Running => Ok(()),
            SessionLifecycle::Ended { exit_code } => Err(exit_code),
        }
    }

    /// Returns the latest state without live command metadata.
    ///
    /// This is used for non-attachment inspection. A one-shot query has no
    /// input-lease identity to prove that it may observe sensitive command text.
    pub fn shell_state_for_inspection(&self) -> (state: ShellState)
        ensures
            state@ == self.terminal()@.shell.visible_to(false, false),
    {
        self.terminal.shell_state().filtered_for_visibility(false, false)
    }

    /// Returns the latest state filtered for one attachment.
    ///
    /// Editable and running command text are independently opt-in, but each is
    /// visible only when the attachment owns the input lease at the time this
    /// snapshot is produced. A client that has already received text cannot be
    /// made to forget it when it later releases the lease; this policy governs
    /// future snapshots only.
    pub fn shell_state_for_attachment(
        &self,
        attachment_id: &str,
        request_command_line: bool,
        request_running_command: bool,
    ) -> (state: ShellState)
        ensures
            ({
                let owns = self.clients().leases.input == Some(attachment_id@);
                state@ == self.terminal()@.shell.visible_to(
                    request_command_line && owns,
                    request_running_command && owns,
                )
            }),
    {
        let owns = self.owns_input_lease(attachment_id);
        self.terminal.shell_state().filtered_for_visibility(
            request_command_line && owns,
            request_running_command && owns,
        )
    }

    pub fn owns_input_lease(&self, attachment_id: &str) -> (owns: bool)
        ensures
            owns == (self.clients().leases.input == Some(attachment_id@)),
    {
        self.leases.status(attachment_id, LeaseKind::Input).owned_by_client
    }

    /// Where an attachment stands in the list.
    fn find(&self, token: &str) -> (index: Option<usize>)
        ensures
            match index {
                Some(i) => position_of(attachments_of(self.attachments@), token@) == Some(
                    i as int,
                ) && i < self.attachments@.len(),
                None => position_of(attachments_of(self.attachments@), token@) is None,
            },
    {
        let ghost all = attachments_of(self.attachments@);
        let mut index: usize = self.attachments.len();
        assert(all.take(all.len() as int) =~= all);
        while index > 0
            invariant
                index <= self.attachments@.len(),
                all == attachments_of(self.attachments@),
                position_of(all, token@) == position_of(all.take(index as int), token@),
            decreases index,
        {
            proof {
                let taken = all.take(index as int);
                assert(taken.drop_last() =~= all.take(index - 1));
                assert(taken.last() == self.attachments@[index - 1]@);
            }
            index -= 1;
            if same_text(self.attachments[index].attachment_token.as_str(), token) {
                return Some(index);
            }
        }
        None
    }

    /// Registers a logical attachment under a drawn identity and grants any
    /// unheld requested leases.
    ///
    /// Refuses a token that another attachment has.
    pub fn register_attachment(
        &mut self,
        attachment_id: String,
        attachment_token: String,
        request_input_lease: bool,
        request_layout_lease: bool,
    ) -> (registration: Option<AttachmentRegistration>)
        requires
            old(self).wf(),
        ensures
            final(self).wf(),
            final(self).same_identity(old(self)),
            final(self).terminal() == old(self).terminal(),
            final(self).lifecycle() == old(self).lifecycle(),
            final(self).observes_processes() == old(self).observes_processes(),
            registration is None <==> old(self).clients().at(attachment_token@) is Some,
            match registration {
                None => final(self).clients() == old(self).clients(),
                Some(registration) => {
                    &&& final(self).clients() == old(self).clients().joined(
                        attachment_id@,
                        attachment_token@,
                        request_input_lease,
                        request_layout_lease,
                    )
                    &&& registration.attachment_id@ == attachment_id@
                    &&& registration.attachment_token@ == attachment_token@
                    &&& registration.generation == 0
                    &&& registration.leases == final(self).clients().leases.both_seen_by(
                        attachment_id@,
                    )
                },
            },
    {
        if self.find(attachment_token.as_str()).is_some() {
            return None;
        }
        let leases = self.leases.request_initial(
            attachment_id.as_str(),
            request_input_lease,
            request_layout_lease,
        );
        let record = AttachmentRecord {
            attachment_token: attachment_token.clone(),
            attachment_id: attachment_id.clone(),
            generation: 0,
            connected: true,
        };
        let ghost before = self.attachments@;
        proof {
            position_facts(attachments_of(before), attachment_token@);
        }
        self.attachments.push(record);
        assert(attachments_of(self.attachments@) =~= attachments_of(before).push(record@));
        Some(AttachmentRegistration { attachment_id, attachment_token, generation: 0, leases })
    }

    /// Registers a logical attachment and grants any unheld requested leases.
    ///
    /// The returned opaque token can rebind a replacement transport to this
    /// attachment during its bounded reconnect grace period. Nothing is
    /// registered when the drawn token is in use, which only chance decides.
    pub fn create_attachment(&mut self, request_input_lease: bool, request_layout_lease: bool) -> (
    registration: Option<AttachmentRegistration>)
        requires
            old(self).wf(),
        ensures
            final(self).wf(),
            final(self).same_identity(old(self)),
            final(self).terminal() == old(self).terminal(),
            final(self).lifecycle() == old(self).lifecycle(),
            final(self).observes_processes() == old(self).observes_processes(),
            match registration {
                None => {
                    &&& old(self).clients().has_drawn_token()
                    &&& final(self).clients() == old(self).clients()
                },
                Some(registration) => {
                    &&& hyphenated(registration.attachment_id@)
                    &&& plain(registration.attachment_token@)
                    &&& old(self).clients().at(registration.attachment_token@) is None
                    &&& registration.generation == 0
                    &&& final(self).clients() == old(self).clients().joined(
                        registration.attachment_id@,
                        registration.attachment_token@,
                        request_input_lease,
                        request_layout_lease,
                    )
                    &&& registration.leases == final(self).clients().leases.both_seen_by(
                        registration.attachment_id@,
                    )
                },
            },
    {
        let attachment_id = random_id();
        let attachment_token = random_token();
        self.register_attachment(
            attachment_id,
            attachment_token,
            request_input_lease,
            request_layout_lease,
        )
    }

    /// Rebinds a replacement transport and invalidates the previous generation.
    pub fn resume_attachment(&mut self, attachment_token: &str) -> (registration: Option<
        AttachmentRegistration,
    >)
        requires
            old(self).wf(),
        ensures
            final(self).wf(),
            final(self).same_identity(old(self)),
            final(self).terminal() == old(self).terminal(),
            final(self).lifecycle() == old(self).lifecycle(),
            final(self).observes_processes() == old(self).observes_processes(),
            final(self).clients() == old(self).clients().resumed(attachment_token@),
            registration is Some <==> old(self).clients().at(attachment_token@) is Some && old(
                self,
            ).clients().at(attachment_token@)->0.generation < u64::MAX,
            registration matches Some(registration) ==> {
                let attachment = old(self).clients().at(attachment_token@)->0;
                &&& registration.attachment_id@ == attachment.id
                &&& registration.attachment_token@ == attachment_token@
                &&& registration.generation == attachment.generation + 1
                &&& registration.leases == old(self).clients().leases.both_seen_by(attachment.id)
            },
    {
        let index: usize = match self.find(attachment_token) {
            Some(index) => index,
            None => {
                return None;
            },
        };
        let ghost before = attachments_of(self.attachments@);
        assert(before[index as int] == self.attachments@[index as int]@);
        let generation: u64 = self.attachments[index].generation;
        if generation == u64::MAX {
            return None;
        }
        let attachment_id = self.attachments[index].attachment_id.clone();
        self.attachments[index].generation = generation + 1;
        self.attachments[index].connected = true;
        proof {
            let after = attachments_of(self.attachments@);
            let changed = Attachment {
                generation: (generation + 1) as u64,
                connected: true,
                ..before[index as int]
            };
            assert(after =~= before.update(index as int, changed));
            tokens_survive_update(before, index as int, changed);
        }
        let leases = self.leases.attachment_leases(attachment_id.as_str());
        Some(
            AttachmentRegistration {
                attachment_id,
                attachment_token: attachment_token.to_owned(),
                generation: generation + 1,
                leases,
            },
        )
    }

    /// Marks the current transport generation as temporarily disconnected.
    ///
    /// Returns `true` only when a grace timer should be scheduled.
    pub fn suspend_attachment(&mut self, attachment_token: &str, generation: u64) -> (
    schedule: bool)
        requires
            old(self).wf(),
        ensures
            final(self).wf(),
            final(self).same_identity(old(self)),
            final(self).terminal() == old(self).terminal(),
            final(self).lifecycle() == old(self).lifecycle(),
            final(self).observes_processes() == old(self).observes_processes(),
            final(self).clients() == old(self).clients().suspended(attachment_token@, generation),
            schedule == old(self).clients().is_connected(attachment_token@, generation),
    {
        let index: usize = match self.find(attachment_token) {
            Some(index) => index,
            None => {
                return false;
            },
        };
        let ghost before = attachments_of(self.attachments@);
        assert(before[index as int] == self.attachments@[index as int]@);
        if self.attachments[index].generation != generation || !self.attachments[index].connected {
            return false;
        }
        self.attachments[index].connected = false;
        proof {
            let after = attachments_of(self.attachments@);
            let changed = Attachment { connected: false, ..before[index as int] };
            assert(after =~= before.update(index as int, changed));
            tokens_survive_update(before, index as int, changed);
        }
        true
    }

    /// Takes an attachment and its leases away.
    fn remove_attachment(&mut self, index: usize)
        requires
            old(self).wf(),
            index < old(self).attachments@.len(),
        ensures
            final(self).wf(),
            final(self).same_identity(old(self)),
            final(self).terminal() == old(self).terminal(),
            final(self).lifecycle() == old(self).lifecycle(),
            final(self).observes_processes() == old(self).observes_processes(),
            final(self).clients() == (Clients {
                attachments: old(self).clients().attachments.remove(index as int),
                leases: old(self).clients().leases.without(
                    old(self).clients().attachments[index as int].id,
                ),
            }),
    {
        let ghost before = attachments_of(self.attachments@);
        let record = self.attachments.remove(index);
        self.leases.release_attachment(record.attachment_id.as_str());
        proof {
            let after = attachments_of(self.attachments@);
            assert(before[index as int] == record@);
            assert(after =~= before.remove(index as int));
            assert forall|i: int, j: int| 0 <= i < j < after.len() implies (#[trigger]
            after[i]).token != (#[trigger] after[j]).token by {
                let x = if i < index {
                    i
                } else {
                    i + 1
                };
                let y = if j < index {
                    j
                } else {
                    j + 1
                };
                assert(after[i] == before[x]);
                assert(after[j] == before[y]);
            }
        }
    }

    /// Releases a disconnected attachment when its reconnect grace expires.
    pub fn expire_attachment(&mut self, attachment_token: &str, generation: u64)
        requires
            old(self).wf(),
        ensures
            final(self).wf(),
            final(self).same_identity(old(self)),
            final(self).terminal() == old(self).terminal(),
            final(self).lifecycle() == old(self).lifecycle(),
            final(self).observes_processes() == old(self).observes_processes(),
            final(self).clients() == old(self).clients().expired(attachment_token@, generation),
    {
        if let Some(index) = self.find(attachment_token) {
            assert(attachments_of(self.attachments@)[index as int]
                == self.attachments@[index as int]@);
            if self.attachments[index].generation == generation
                && !self.attachments[index].connected {
                self.remove_attachment(index);
            }
        }
    }

    /// Explicitly detaches the current generation without reconnect grace.
    pub fn close_attachment(&mut self, attachment_token: &str, generation: u64)
        requires
            old(self).wf(),
        ensures
            final(self).wf(),
            final(self).same_identity(old(self)),
            final(self).terminal() == old(self).terminal(),
            final(self).lifecycle() == old(self).lifecycle(),
            final(self).observes_processes() == old(self).observes_processes(),
            final(self).clients() == old(self).clients().closed(attachment_token@, generation),
    {
        if let Some(index) = self.find(attachment_token) {
            assert(attachments_of(self.attachments@)[index as int]
                == self.attachments@[index as int]@);
            if self.attachments[index].generation == generation {
                self.remove_attachment(index);
            }
        }
    }

    pub fn acquire_lease(&mut self, attachment_id: &str, lease: LeaseKind) -> (status: LeaseStatus)
        requires
            old(self).wf(),
        ensures
            final(self).wf(),
            final(self).same_identity(old(self)),
            final(self).terminal() == old(self).terminal(),
            final(self).lifecycle() == old(self).lifecycle(),
            final(self).observes_processes() == old(self).observes_processes(),
            final(self).clients() == (Clients {
                leases: old(self).clients().leases.claimed(attachment_id@, lease),
                ..old(self).clients()
            }),
            status == final(self).clients().leases.seen_by(attachment_id@, lease),
    {
        self.leases.acquire(attachment_id, lease)
    }

    pub fn release_lease(&mut self, attachment_id: &str, lease: LeaseKind) -> (status: LeaseStatus)
        requires
            old(self).wf(),
        ensures
            final(self).wf(),
            final(self).same_identity(old(self)),
            final(self).terminal() == old(self).terminal(),
            final(self).lifecycle() == old(self).lifecycle(),
            final(self).observes_processes() == old(self).observes_processes(),
            final(self).clients() == (Clients {
                leases: old(self).clients().leases.released(attachment_id@, lease),
                ..old(self).clients()
            }),
            status == final(self).clients().leases.seen_by(attachment_id@, lease),
    {
        self.leases.release(attachment_id, lease)
    }

    pub fn snapshot_for_attach(&self, requested: Option<u64>) -> (result: Result<
        AttachSnapshot,
        JournalError,
    >)
        requires
            self.wf(),
        ensures
            delivered(*self, requested, None, result),
    {
        self.snapshot_for_delivery(requested, None)
    }

    /// What a client needs to continue from `requested`, having seen grid
    /// changes up to `checkpoint_geometry_revision`.
    pub fn snapshot_for_delivery(
        &self,
        requested: Option<u64>,
        checkpoint_geometry_revision: Option<u64>,
    ) -> (result: Result<AttachSnapshot, JournalError>)
        requires
            self.wf(),
        ensures
            delivered(*self, requested, checkpoint_geometry_revision, result),
    {
        match self.terminal.delivery(requested, checkpoint_geometry_revision) {
            Ok(delivery) => Ok(
                AttachSnapshot {
                    session: self.info(),
                    checkpoint: delivery.checkpoint,
                    checkpoint_geometry_revision: delivery.checkpoint_geometry_revision,
                    journal: delivery.journal,
                    history_gap: delivery.history_gap,
                    history: delivery.history,
                    shell_state: self.terminal.shell_state(),
                },
            ),
            Err(error) => Err(error),
        }
    }

    /// Whether an attachment may write input to the terminal.
    pub fn authorize_input(&self, attachment_id: &str) -> (result: Result<(), SessionControlError>)
        ensures
            result is Ok <==> self.clients().leases.input == Some(attachment_id@),
            result matches Err(error) ==> error == SessionControlError::InputLeaseRequired,
    {
        if self.owns_input_lease(attachment_id) {
            Ok(())
        } else {
            Err(SessionControlError::InputLeaseRequired)
        }
    }

    /// Whether an attachment may change the grid of the terminal.
    pub fn authorize_resize(&self, attachment_id: &str) -> (result: Result<
        (),
        SessionControlError,
    >)
        ensures
            result is Ok <==> self.clients().leases.layout == Some(attachment_id@),
            result matches Err(error) ==> error == SessionControlError::LayoutLeaseRequired,
    {
        if self.leases.status(attachment_id, LeaseKind::Layout).owned_by_client {
            Ok(())
        } else {
            Err(SessionControlError::LayoutLeaseRequired)
        }
    }

    /// Changes the grid for the owner of the layout lease, once the PTY has
    /// taken it. Returns the event that marks the change in the output, or
    /// nothing when the grid is that one already.
    pub fn resize(&mut self, attachment_id: &str, terminal_size: TerminalSize) -> (result: Result<
        Option<SessionEvent>,
        SessionControlError,
    >)
        requires
            old(self).wf(),
            usable_size(terminal_size),
            old(self).terminal().has_room(1),
        ensures
            final(self).wf(),
            final(self).same_identity(old(self)),
            final(self).clients() == old(self).clients(),
            final(self).lifecycle() == old(self).lifecycle(),
            final(self).observes_processes() == old(self).observes_processes(),
            result is Ok <==> old(self).clients().leases.layout == Some(attachment_id@),
            match result {
                Err(error) => error == SessionControlError::LayoutLeaseRequired
                    && final(self).terminal() == old(self).terminal(),
                Ok(event) => {
                    let next = old(self).terminal().journal().next();
                    &&& final(self).terminal()@ == old(self).terminal()@.resized(
                        terminal_size,
                        next,
                    )
                    &&& final(self).terminal().journal() == old(self).terminal().journal()
                    &&& event == if old(self).terminal()@.display.size == terminal_size {
                        None
                    } else {
                        Some(
                            SessionEvent::PtyGeometryChanged {
                                terminal_size,
                                observed_sequence: next as u64,
                                geometry_revision: final(self).terminal()@.geometry,
                            },
                        )
                    }
                },
            },
    {
        match self.authorize_resize(attachment_id) {
            Ok(_) => {},
            Err(error) => {
                return Err(error);
            },
        }
        match self.terminal.resize(terminal_size) {
            Some((observed_sequence, geometry_revision)) => Ok(
                Some(
                    SessionEvent::PtyGeometryChanged {
                        terminal_size,
                        observed_sequence,
                        geometry_revision,
                    },
                ),
            ),
            None => Ok(None),
        }
    }

    /// Takes in terminal output.
    pub fn append_output(&mut self, data: &[u8]) -> (publication: Publication)
        requires
            old(self).wf(),
            old(self).terminal().has_room(data@.len() as int + 4),
        ensures
            final(self).wf(),
            final(self).same_identity(old(self)),
            final(self).clients() == old(self).clients(),
            final(self).lifecycle() == old(self).lifecycle(),
            final(self).observes_processes() == old(self).observes_processes(),
            final(self).terminal().journal().next() == old(self).terminal().journal().next()
                + data@.len(),
            final(self).terminal().journal().capacity()
                == old(self).terminal().journal().capacity(),
            final(self).terminal().journal().retained() == old(
                self,
            ).terminal().journal().retained_after(data@),
            final(self).terminal().journal().bytes() == crate::journal::suffix(
                old(self).terminal().journal().bytes() + data@,
                old(self).terminal().journal().capacity() as int,
            ),
            ({
                let next = final(self).terminal().journal().next();
                let fed = old(self).terminal()@.fed(data@, next);
                let made = fed.latest.checkpoint.sequence;
                final(self).terminal()@ == if final(self).terminal().journal().earliest() > made
                    || next - made >= old(self).interval() {
                    fed.refreshed(next)
                } else {
                    fed
                }
            }),
            publication.event == if data@.len() > 0 {
                Some(SessionEvent::Output)
            } else {
                None
            },
            publication.shell_state is Some <==> final(self).terminal()@.shell.tui_hint != old(
                self,
            ).terminal()@.shell.tui_hint,
            publication.shell_state matches Some(state) ==> state@
                == final(self).terminal()@.shell,
    {
        let (output, shell_state) = self.terminal.append_output(
            data,
            self.checkpoint_interval_bytes,
        );
        Publication {
            event: if output {
                Some(SessionEvent::Output)
            } else {
                None
            },
            shell_state,
        }
    }

    /// Ends the session. Only the first end counts and is published.
    pub fn publish_ended(&mut self, exit_code: Option<u32>) -> (publication: Publication)
        requires
            old(self).wf(),
            old(self).terminal()@.shell.revision < u64::MAX,
        ensures
            final(self).wf(),
            final(self).same_identity(old(self)),
            final(self).clients() == old(self).clients(),
            !final(self).observes_processes(),
            final(self).terminal().journal() == old(self).terminal().journal(),
            final(self).lifecycle() == match old(self).lifecycle() {
                SessionLifecycle::Running => SessionLifecycle::Ended { exit_code },
                ended => ended,
            },
            publication.event == match old(self).lifecycle() {
                SessionLifecycle::Running => Some(SessionEvent::Ended { exit_code }),
                _ => None,
            },
            ({
                let shell = old(self).terminal()@.shell;
                let idle = shell.line is None && shell.running is None && shell.process is None
                    && shell.phase == crate::proto::PromptPhase::Unknown;
                &&& publication.shell_state is None <==> idle
                &&& final(self).terminal()@ == if idle {
                    old(self).terminal()@
                } else {
                    Terminal {
                        shell: shell.ended().revised(old(self).terminal().journal().next()),
                        ..old(self).terminal()@
                    }
                }
            }),
            publication.shell_state matches Some(state) ==> state@
                == final(self).terminal()@.shell,
    {
        self.process_observation_enabled = false;
        let shell_state = self.terminal.end_shell();
        let event = match self.lifecycle {
            SessionLifecycle::Running => {
                self.lifecycle = SessionLifecycle::Ended { exit_code };
                Some(SessionEvent::Ended { exit_code })
            },
            SessionLifecycle::Ended { .. } => None,
        };
        Publication { event, shell_state }
    }

    /// Takes in a report of the shell. Returns the shell state if it changed.
    pub fn apply_shell_report(&mut self, report: ShellReport, home: Option<&str>) -> (
    shell_state: Option<ShellState>)
        requires
            old(self).wf(),
            old(self).terminal()@.shell.revision < u64::MAX,
        ensures
            final(self).wf(),
            final(self).same_identity(old(self)),
            final(self).clients() == old(self).clients(),
            final(self).lifecycle() == old(self).lifecycle(),
            final(self).observes_processes() == old(self).observes_processes(),
            final(self).terminal().journal() == old(self).terminal().journal(),
            final(self).terminal()@ == old(self).terminal()@.after_report(
                report@,
                home_of(home),
                old(self).terminal().journal().next(),
            ),
            shell_state is Some <==> final(self).terminal()@.shell != old(self).terminal()@.shell,
            shell_state matches Some(state) ==> state@ == final(self).terminal()@.shell,
    {
        self.terminal.apply_shell_report(report, home)
    }

    /// Takes in an observation of the session's processes, as long as they are
    /// observed. Returns the shell state if it changed.
    pub fn apply_process_observation(
        &mut self,
        observation: Option<ProcessObservation>,
        home: Option<&str>,
    ) -> (shell_state: Option<ShellState>)
        requires
            old(self).wf(),
            old(self).terminal()@.shell.revision < u64::MAX,
        ensures
            final(self).wf(),
            final(self).same_identity(old(self)),
            final(self).clients() == old(self).clients(),
            final(self).lifecycle() == old(self).lifecycle(),
            final(self).observes_processes() == old(self).observes_processes(),
            final(self).terminal().journal() == old(self).terminal().journal(),
            final(self).terminal()@ == if old(self).observes_processes() {
                old(self).terminal()@.after_observation(
                    match observation {
                        Some(observation) => Some(observation.process()),
                        None => None,
                    },
                    match observation {
                        Some(observation) => optional(observation.cwd),
                        None => None,
                    },
                    home_of(home),
                    old(self).terminal().journal().next(),
                )
            } else {
                old(self).terminal()@
            },
            shell_state is Some <==> final(self).terminal()@.shell != old(self).terminal()@.shell,
            shell_state matches Some(state) ==> state@ == final(self).terminal()@.shell,
    {
        if !self.process_observation_enabled {
            return None;
        }
        self.terminal.apply_process_observation(observation, home)
    }

    /// Whether the session's processes are observed.
    pub fn process_observation_enabled(&self) -> (enabled: bool)
        ensures
            enabled == self.observes_processes(),
    {
        self.process_observation_enabled
    }

    /// Emits a newer complete state snapshot after a connection transitions
    /// into command visibility. The underlying shell report is unchanged, but
    /// the revision keeps every attachment's state stream strictly monotonic.
    pub fn refresh_shell_state_for_visibility(&mut self) -> (shell_state: Option<ShellState>)
        requires
            old(self).wf(),
            old(self).terminal()@.shell.revision < u64::MAX,
        ensures
            final(self).wf(),
            final(self).same_identity(old(self)),
            final(self).clients() == old(self).clients(),
            final(self).lifecycle() == old(self).lifecycle(),
            final(self).observes_processes() == old(self).observes_processes(),
            final(self).terminal().journal() == old(self).terminal().journal(),
            ({
                let shell = old(self).terminal()@.shell;
                let text = shell.line is Some || shell.running is Some;
                &&& shell_state is Some <==> text
                &&& final(self).terminal()@ == if text {
                    Terminal {
                        shell: shell.revised(old(self).terminal().journal().next()),
                        ..old(self).terminal()@
                    }
                } else {
                    old(self).terminal()@
                }
            }),
            shell_state matches Some(state) ==> state@ == final(self).terminal()@.shell,
    {
        self.terminal.refresh_for_visibility()
    }

    /// Whether every counter of the session can still grow by `steps`.
    pub fn has_room(&self, steps: u64) -> (room: bool)
        requires
            self.wf(),
        ensures
            room == self.terminal().has_room(steps as int),
    {
        self.terminal.can_grow(steps)
    }
}

/// What a snapshot for a client holds, or why there is none.
pub open spec fn delivered(
    session: Session,
    requested: Option<u64>,
    seen: Option<u64>,
    result: Result<AttachSnapshot, JournalError>,
) -> bool {
    let terminal = session.terminal()@;
    let journal = session.terminal().journal();
    let boundary = terminal.checkpoint_for(requested, seen, journal.earliest());
    let from = match boundary {
        Some(boundary) => boundary.checkpoint.sequence,
        None => requested->0,
    };
    &&& result is Err <==> requested is Some && requested->0 > journal.next()
    &&& match result {
        Err(JournalError::SequenceAhead { requested: sequence, next }) => Some(sequence)
            == requested && next == journal.next(),
        Ok(snapshot) => {
            &&& session.is_described_by(snapshot.session)
            &&& snapshot.shell_state@ == terminal.shell
            &&& match boundary {
                Some(boundary) => {
                    &&& snapshot.checkpoint is Some
                    &&& snapshot.checkpoint->0@ == boundary.checkpoint
                    &&& snapshot.history is Some
                    &&& snapshot.history->0@ == boundary.history
                    &&& snapshot.checkpoint_geometry_revision == Some(boundary.geometry)
                },
                None => {
                    &&& snapshot.checkpoint is None
                    &&& snapshot.history is None
                    &&& snapshot.checkpoint_geometry_revision is None
                },
            }
            &&& snapshot.journal.replay_from == from
            &&& snapshot.journal.earliest_sequence == journal.earliest()
            &&& snapshot.journal.next_sequence == journal.next()
            &&& !snapshot.journal.history_gap
            &&& crate::journal::chunks_of(snapshot.journal.chunks@) == crate::journal::replay(
                journal.retained(),
                from as int,
            )
            &&& crate::journal::contiguous(
                crate::journal::chunks_of(snapshot.journal.chunks@),
                journal.next() as int,
            )
            &&& crate::journal::bytes_of(crate::journal::chunks_of(snapshot.journal.chunks@))
                == journal.bytes().skip(from - journal.earliest())
            &&& snapshot.history_gap == ((requested is Some && requested->0 < from) || (boundary
                is Some && boundary->0.history.truncated))
        },
    }
}

proof fn tokens_survive_update(list: Seq<Attachment>, i: int, changed: Attachment)
    requires
        0 <= i < list.len(),
        distinct_tokens(list),
        changed.token == list[i].token,
    ensures
        distinct_tokens(list.update(i, changed)),
{
    let after = list.update(i, changed);
    assert forall|a: int, b: int| 0 <= a < b < after.len() implies (#[trigger] after[a]).token
        != (#[trigger] after[b]).token by {
        assert(after[a].token == list[a].token);
        assert(after[b].token == list[b].token);
    }
}

proof fn position_of_update(list: Seq<Attachment>, i: int, changed: Attachment, token: Seq<char>)
    requires
        0 <= i < list.len(),
        changed.token == list[i].token,
    ensures
        position_of(list.update(i, changed), token) == position_of(list, token),
    decreases list.len(),
{
    let after = list.update(i, changed);
    assert(after.last().token == list.last().token);
    if list.last().token != token {
        if i == list.len() - 1 {
            assert(after.drop_last() =~= list.drop_last());
        } else {
            assert(after.drop_last() =~= list.drop_last().update(i, changed));
            position_of_update(list.drop_last(), i, changed, token);
        }
    }
}

/// A transport that was replaced can no longer suspend, expire or close the
/// attachment, and resuming keeps the attachment's leases.
pub proof fn only_the_latest_transport_counts(clients: Clients, token: Seq<char>, generation: u64)
    requires
        clients.wf(),
        clients.at(token) is Some,
        clients.at(token)->0.generation < u64::MAX,
        generation <= clients.at(token)->0.generation,
    ensures
        clients.resumed(token).leases == clients.leases,
        clients.resumed(token).is_connected(
            token,
            (clients.at(token)->0.generation + 1) as u64,
        ),
        clients.resumed(token).suspended(token, generation) == clients.resumed(token),
        clients.resumed(token).expired(token, generation) == clients.resumed(token),
        clients.resumed(token).closed(token, generation) == clients.resumed(token),
{
    position_facts(clients.attachments, token);
    let i = position_of(clients.attachments, token)->0;
    let changed = Attachment {
        generation: (clients.attachments[i].generation + 1) as u64,
        connected: true,
        ..clients.attachments[i]
    };
    position_of_update(clients.attachments, i, changed, token);
}

/// An interrupted attachment keeps its leases through its grace period, and
/// gives exactly its own up when the grace runs out.
pub proof fn grace_keeps_the_leases(
    clients: Clients,
    token: Seq<char>,
    generation: u64,
    lease: LeaseKind,
)
    requires
        clients.wf(),
        clients.is_connected(token, generation),
    ensures
        clients.suspended(token, generation).leases == clients.leases,
        clients.expired(token, generation) == clients,
        clients.suspended(token, generation).expired(token, generation).leases
            == clients.leases.without(clients.at(token)->0.id),
        clients.closed(token, generation).leases == clients.leases.without(
            clients.at(token)->0.id,
        ),
        clients.closed(token, generation).leases.owner(lease) != Some(clients.at(token)->0.id),
        clients.leases.owner(lease) != Some(clients.at(token)->0.id) ==> clients.closed(
            token,
            generation,
        ).leases.owner(lease) == clients.leases.owner(lease),
{
    position_facts(clients.attachments, token);
    let i = position_of(clients.attachments, token)->0;
    let changed = Attachment { connected: false, ..clients.attachments[i] };
    position_of_update(clients.attachments, i, changed, token);
}

/// Every state that a session publishes has a newer revision than the one
/// before it.
pub proof fn shell_revisions_increase(
    terminal: Terminal,
    report: crate::report::Report,
    home: Option<Seq<char>>,
    sequence: nat,
)
    requires
        terminal.shell.revision < u64::MAX,
    ensures
        ({
            let after = terminal.after_report(report, home, sequence);
            after.shell != terminal.shell ==> after.shell.revision == terminal.shell.revision + 1
        }),
        terminal.shell.metadata_valid() ==> terminal.after_report(
            report,
            home,
            sequence,
        ).shell.metadata_valid(),
{
}

/// What a list holds of a token is the same after another token was taken out.
proof fn value_after_removal(list: Seq<Attachment>, i: int, token: Seq<char>)
    requires
        0 <= i < list.len(),
        list[i].token != token,
    ensures
        match (position_of(list.remove(i), token), position_of(list, token)) {
            (Some(after), Some(before)) => list.remove(i)[after] == list[before],
            (None, None) => true,
            _ => false,
        },
    decreases list.len(),
{
    let after = list.remove(i);
    if i == list.len() - 1 {
        assert(after =~= list.drop_last());
        position_facts(after, token);
    } else {
        assert(after.last() == list.last());
        if list.last().token != token {
            assert(after.drop_last() =~= list.drop_last().remove(i));
            value_after_removal(list.drop_last(), i, token);
            position_facts(list.drop_last(), token);
            position_facts(after.drop_last(), token);
        }
    }
}

/// A client that joins gets an attachment of its own, and each lease that it
/// asked for and nobody held; all others stay as they are.
pub proof fn joining_disturbs_no_one(
    clients: Clients,
    id: Seq<char>,
    token: Seq<char>,
    input: bool,
    layout: bool,
    other: Seq<char>,
    lease: LeaseKind,
)
    requires
        other != token,
    ensures
        clients.joined(id, token, input, layout).at(token) == Some(
            Attachment { token, id, generation: 0, connected: true },
        ),
        clients.joined(id, token, input, layout).at(other) == clients.at(other),
        ({
            let asked = match lease {
                LeaseKind::Input => input,
                LeaseKind::Layout => layout,
            };
            clients.joined(id, token, input, layout).leases.owner(lease) == if asked
                && clients.leases.owner(lease) is None {
                Some(id)
            } else {
                clients.leases.owner(lease)
            }
        }),
{
    let after = clients.joined(id, token, input, layout).attachments;
    assert(after.drop_last() =~= clients.attachments);
    position_facts(clients.attachments, other);
}

/// What happens to one attachment leaves every other one as it is.
pub proof fn attachments_are_kept_apart(
    clients: Clients,
    token: Seq<char>,
    generation: u64,
    other: Seq<char>,
)
    requires
        other != token,
    ensures
        clients.resumed(token).at(other) == clients.at(other),
        clients.suspended(token, generation).at(other) == clients.at(other),
        clients.left(token).at(other) == clients.at(other),
        clients.expired(token, generation).at(other) == clients.at(other),
        clients.closed(token, generation).at(other) == clients.at(other),
{
    let list = clients.attachments;
    position_facts(list, token);
    position_facts(list, other);
    if let Some(i) = position_of(list, token) {
        let next = Attachment {
            generation: (list[i].generation + 1) as u64,
            connected: true,
            ..list[i]
        };
        let gone = Attachment { connected: false, ..list[i] };
        position_of_update(list, i, next, other);
        position_of_update(list, i, gone, other);
        value_after_removal(list, i, other);
    }
}

/// The life of one attachment: it resumes under the next generation, still
/// under its identifier; its transport's loss only disconnects it; and it is
/// gone once it left, once its current transport detached, or once its grace
/// ran out while it was disconnected, and not else.
pub proof fn an_attachment_lives_until_it_leaves(
    clients: Clients,
    token: Seq<char>,
    generation: u64,
    held: Attachment,
)
    requires
        clients.wf(),
        clients.at(token) == Some(held),
        held.generation < u64::MAX,
    ensures
        clients.resumed(token).at(token) == Some(
            Attachment { generation: (held.generation + 1) as u64, connected: true, ..held },
        ),
        clients.suspended(token, generation).at(token) == Some(
            Attachment {
                connected: held.connected && held.generation != generation,
                ..held
            },
        ),
        clients.left(token).at(token) is None,
        clients.left(token).attachments.len() == clients.attachments.len() - 1,
        clients.closed(token, generation).at(token) is None <==> held.generation == generation,
        clients.expired(token, generation).at(token) is None <==> held.generation == generation
            && !held.connected,
        clients.left(token).leases == clients.leases.without(held.id),
        clients.suspended(token, generation).leases == clients.leases,
        clients.resumed(token).leases == clients.leases,
        clients.closed(token, generation).at(token) is Some ==> clients.closed(token, generation)
            == clients,
        clients.expired(token, generation).at(token) is Some ==> clients.expired(token, generation)
            == clients,
{
    let list = clients.attachments;
    position_facts(list, token);
    let i = position_of(list, token)->0;
    let next = Attachment {
        generation: (list[i].generation + 1) as u64,
        connected: true,
        ..list[i]
    };
    let gone = Attachment { connected: false, ..list[i] };
    position_of_update(list, i, next, token);
    position_of_update(list, i, gone, token);
    let rest = list.remove(i);
    position_facts(rest, token);
    if let Some(j) = position_of(rest, token) {
        let k = if j < i {
            j
        } else {
            j + 1
        };
        assert(rest[j] == list[k]);
        if k < i {
            assert(list[k].token != list[i].token);
        } else {
            assert(list[i].token != list[k].token);
        }
    }
}

/// What a client is given when it attaches: without a position, or with one
/// that is no longer retained, a checkpoint of the current grid and all output
/// after it; with a retained one, exactly the output from there on, unless it
/// missed a change of the grid. Output that is skipped is reported as a gap.
pub proof fn an_attachment_continues_or_is_restored(
    session: Session,
    requested: Option<u64>,
    seen: Option<u64>,
    snapshot: AttachSnapshot,
)
    requires
        session.wf(),
        delivered(session, requested, seen, Ok(snapshot)),
    ensures
        ({
            let terminal = session.terminal()@;
            let journal = session.terminal().journal();
            let from = snapshot.journal.replay_from;
            let retained = requested is Some && journal.earliest() <= requested->0;
            let continues = retained && !terminal.misses_the_grid_at(seen, requested->0);
            &&& snapshot.checkpoint is None <==> continues
            &&& snapshot.history is None <==> continues
            &&& continues ==> from == requested->0 && !snapshot.history_gap
            &&& snapshot.checkpoint matches Some(checkpoint) ==> {
                &&& checkpoint@.sequence == from
                &&& checkpoint@.terminal_size == terminal.display.size
                &&& snapshot.checkpoint_geometry_revision == Some(terminal.geometry)
                &&& snapshot.history->0@.sequence == from
            }
            &&& requested matches Some(sequence) ==> (sequence < from ==> snapshot.history_gap)
            &&& snapshot.history matches Some(history) ==> (history@.truncated
                ==> snapshot.history_gap)
            &&& snapshot.history_gap ==> (requested is Some && requested->0 < from) || (
            snapshot.history is Some && snapshot.history->0@.truncated)
            &&& journal.earliest() <= from <= journal.next()
            &&& crate::journal::bytes_of(crate::journal::chunks_of(snapshot.journal.chunks@)).len()
                == journal.next() - from
            &&& snapshot.shell_state@ == terminal.shell
            &&& snapshot.session.terminal_size == terminal.display.size
        }),
{
    session.parts_are_consistent();
    session.terminal().terminal_is_consistent();
    session.terminal().journal().retention_is_bounded();
    a_missed_grid_change_is_restored(
        session.terminal()@,
        requested,
        seen,
        session.terminal().journal().earliest(),
        session.terminal().journal().next(),
    );
}

} // verus!
