//! What a client may ask of the daemon after its handshake, and how an
//! attachment begins.
use vstd::prelude::*;
use vstd::string::*;

use crate::delivery::{valid_presentation_window, window_valid, LiveAttachment, Stream};
use crate::ids::{hyphenated, plain, random_id, random_token};
use crate::journal::JournalError;
use crate::manager::{
    has_name, in_listing_order, name_refused, selects, sort_sessions, taken_names, PendingSession,
    SessionManager, SessionManagerError,
};
use crate::names::{name_given, without_text, Names};
use crate::proto::{
    ClientMessage, CommandSpec, ErrorCode, ServerMessage, SessionInfo, TerminalSize,
};
use crate::server::{
    control_code, control_error, manager_code, session_manager_error, RestartCoordinator,
    RestartState, DAEMON_DRAINING_MESSAGE,
};
use crate::session::{
    delivered, AttachSnapshot, AttachmentRegistration, Session, SessionControlError,
    SessionLifecycle,
};
use crate::text::{between, exit_text, exit_words};

verus! {

/// What a client asks for when it attaches.
#[derive(Debug, Clone, Copy, PartialEq, Eq, Structural)]
pub struct AttachParameters {
    pub resume_from: Option<u64>,
    pub client_terminal_size: TerminalSize,
    pub request_input_lease: bool,
    pub request_layout_lease: bool,
    pub request_command_line: bool,
    pub request_running_command: bool,
    pub presentation_window_bytes: u64,
}

/// What the daemon does about a request.
pub enum RequestAction {
    /// Answers and closes the connection.
    Reply(ServerMessage),
    /// Describes the live sessions: see [`list_reply`].
    List,
    /// Describes one session and its shell: see [`shell_state_reply`].
    Inspect { session_id: String },
    /// Ends a session: see [`kill_reply`].
    Kill { session_id: String },
    /// Starts the process of a session whose name is reserved: see
    /// [`SessionManager::finish_create`], [`created_reply`] and
    /// [`create_failed_reply`].
    Create {
        pending: PendingSession,
        command: Option<CommandSpec>,
        working_directory: Option<String>,
        terminal_size: TerminalSize,
    },
    /// Attaches to a session: see [`prepare_attachment`].
    Attach { session_id: String, selector: String, request: AttachParameters },
    /// Attaches again: see [`prepare_resumed_attachment`].
    Resume {
        session_id: String,
        selector: String,
        attachment_token: String,
        request: AttachParameters,
    },
}

impl RequestAction {
    /// Whether the action answers with an error.
    pub open spec fn refuses(self, code: ErrorCode, message: Seq<char>) -> bool {
        self matches RequestAction::Reply(reply) && reply.is_error(code, message)
    }

    /// Whether the action reports that a selector finds nothing.
    pub open spec fn reports_missing(self, selector: Seq<char>) -> bool {
        self.refuses(ErrorCode::SessionNotFound, "session '"@ + selector + "' was not found"@)
    }
}

/// Why a request to attach is refused before its session is looked up.
pub open spec fn attach_refusal(
    window: u64,
    draining: bool,
) -> Option<Seq<char>> {
    if !window_valid(window) {
        Some("presentation_window_bytes must be between 1 and 8388608"@)
    } else if draining {
        Some(DAEMON_DRAINING_MESSAGE@)
    } else {
        None
    }
}

fn refusal(message: &str) -> (action: RequestAction)
    ensures
        action.refuses(ErrorCode::InvalidRequest, message@),
{
    RequestAction::Reply(
        ServerMessage::Error { code: ErrorCode::InvalidRequest, message: message.to_owned() },
    )
}

fn missing(error: SessionManagerError) -> (action: RequestAction)
    ensures
        action.refuses(manager_code(error), error.text()),
{
    RequestAction::Reply(session_manager_error(&error))
}

/// Why a request to attach is refused before its session is looked up.
fn refuse_attach(window: u64, restart: &RestartCoordinator) -> (refused: Option<RequestAction>)
    ensures
        match (refused, attach_refusal(window, restart.state == RestartState::Draining)) {
            (Some(action), Some(message)) => action.refuses(ErrorCode::InvalidRequest, message),
            (None, None) => true,
            _ => false,
        },
{
    if !valid_presentation_window(window) {
        return Some(refusal("presentation_window_bytes must be between 1 and 8388608"));
    }
    if restart.is_draining() {
        return Some(refusal(DAEMON_DRAINING_MESSAGE));
    }
    None
}

/// Decides about a request. While the daemon drains it neither creates sessions
/// nor lets anybody attach.
pub fn handle_request(
    sessions: &mut SessionManager,
    restart: &RestartCoordinator,
    request: ClientMessage,
) -> (action: RequestAction)
    requires
        old(sessions).wf(),
    ensures
        final(sessions).wf(),
        final(sessions).sessions() == old(sessions).sessions(),
        final(sessions).journal_capacity() == old(sessions).journal_capacity(),
        final(sessions).checkpoint_interval() == old(sessions).checkpoint_interval(),
        final(sessions).had_session() == old(sessions).had_session(),
        request !is CreateSession ==> final(sessions).names() == old(sessions).names(),
        ({
            let live = old(sessions).sessions();
            let draining = restart.state == RestartState::Draining;
            match request {
                ClientMessage::CreateSession { name, command, working_directory, terminal_size } =>
                if draining {
                    &&& final(sessions).names() == old(sessions).names()
                    &&& action.refuses(ErrorCode::InvalidRequest, DAEMON_DRAINING_MESSAGE@)
                } else {
                    match action {
                        RequestAction::Create {
                            pending,
                            command: c,
                            working_directory: w,
                            terminal_size: t,
                        } => {
                            &&& c == command
                            &&& w == working_directory
                            &&& t == terminal_size
                            &&& hyphenated(pending.session_id@)
                            &&& name_given(
                                taken_names(old(sessions).names(), live),
                                old(sessions).names().next,
                                name,
                                pending.name@,
                                final(sessions).names().next,
                            )
                            &&& final(sessions).names().pending == old(
                                sessions,
                            ).names().pending.push(pending.name@)
                        },
                        RequestAction::Reply(reply) => {
                            &&& final(sessions).names().pending == old(sessions).names().pending
                            &&& exists|error: SessionManagerError|
                                {
                                    &&& #[trigger] name_refused(
                                        taken_names(old(sessions).names(), live),
                                        old(sessions).names().next,
                                        name,
                                        error,
                                        final(sessions).names().next,
                                    )
                                    &&& reply.is_error(manager_code(error), error.text())
                                }
                        },
                        _ => false,
                    }
                },
                ClientMessage::ListSessions => action == RequestAction::List,
                ClientMessage::GetShellState { session } => match action {
                    RequestAction::Inspect { session_id } => selects(
                        live,
                        session@,
                        session_id@,
                    ),
                    _ => !live.dom().contains(session@) && !has_name(live, session@)
                        && action.reports_missing(session@),
                },
                ClientMessage::KillSession { session } => match action {
                    RequestAction::Kill { session_id } => selects(live, session@, session_id@),
                    _ => !live.dom().contains(session@) && !has_name(live, session@)
                        && action.reports_missing(session@),
                },
                ClientMessage::AttachSession {
                    session,
                    resume_from,
                    terminal_size,
                    request_input_lease,
                    request_layout_lease,
                    request_command_line,
                    request_running_command,
                    presentation_window_bytes,
                } => match (attach_refusal(presentation_window_bytes, draining), action) {
                    (Some(message), _) => action.refuses(ErrorCode::InvalidRequest, message),
                    (None, RequestAction::Attach { session_id, selector, request: asked }) => {
                        &&& selects(live, session@, session_id@)
                        &&& selector@ == session@
                        &&& asked == (AttachParameters {
                            resume_from,
                            client_terminal_size: terminal_size,
                            request_input_lease,
                            request_layout_lease,
                            request_command_line,
                            request_running_command,
                            presentation_window_bytes,
                        })
                    },
                    (None, _) => !live.dom().contains(session@) && !has_name(live, session@)
                        && action.reports_missing(session@),
                },
                ClientMessage::ResumeAttachment {
                    session,
                    attachment_token,
                    resume_from,
                    terminal_size,
                    request_command_line,
                    request_running_command,
                    presentation_window_bytes,
                } => match (attach_refusal(presentation_window_bytes, draining), action) {
                    (Some(message), _) => action.refuses(ErrorCode::InvalidRequest, message),
                    (
                        None,
                        RequestAction::Resume {
                            session_id,
                            selector,
                            attachment_token: token,
                            request: asked,
                        },
                    ) => {
                        &&& selects(live, session@, session_id@)
                        &&& selector@ == session@
                        &&& token@ == attachment_token@
                        &&& asked == (AttachParameters {
                            resume_from,
                            client_terminal_size: terminal_size,
                            request_input_lease: false,
                            request_layout_lease: false,
                            request_command_line,
                            request_running_command,
                            presentation_window_bytes,
                        })
                    },
                    (None, _) => !live.dom().contains(session@) && !has_name(live, session@)
                        && action.reports_missing(session@),
                },
                _ => action.refuses(
                    ErrorCode::InvalidRequest,
                    "this message is valid only after attaching to a session"@,
                ),
            }
        }),
{
    match request {
        ClientMessage::CreateSession { name, command, working_directory, terminal_size } => {
            if restart.is_draining() {
                return refusal(DAEMON_DRAINING_MESSAGE);
            }
            match sessions.begin_create(name) {
                Ok(pending) => RequestAction::Create {
                    pending,
                    command,
                    working_directory,
                    terminal_size,
                },
                Err(error) => missing(error),
            }
        },
        ClientMessage::ListSessions => RequestAction::List,
        ClientMessage::GetShellState { session } => match sessions.resolve(session.as_str()) {
            Ok(session_id) => RequestAction::Inspect { session_id },
            Err(error) => missing(error),
        },
        ClientMessage::KillSession { session } => match sessions.resolve(session.as_str()) {
            Ok(session_id) => RequestAction::Kill { session_id },
            Err(error) => missing(error),
        },
        ClientMessage::AttachSession {
            session,
            resume_from,
            terminal_size,
            request_input_lease,
            request_layout_lease,
            request_command_line,
            request_running_command,
            presentation_window_bytes,
        } => {
            if let Some(refused) = refuse_attach(presentation_window_bytes, restart) {
                return refused;
            }
            match sessions.resolve(session.as_str()) {
                Ok(session_id) => RequestAction::Attach {
                    session_id,
                    selector: session,
                    request: AttachParameters {
                        resume_from,
                        client_terminal_size: terminal_size,
                        request_input_lease,
                        request_layout_lease,
                        request_command_line,
                        request_running_command,
                        presentation_window_bytes,
                    },
                },
                Err(error) => missing(error),
            }
        },
        ClientMessage::ResumeAttachment {
            session,
            attachment_token,
            resume_from,
            terminal_size,
            request_command_line,
            request_running_command,
            presentation_window_bytes,
        } => {
            if let Some(refused) = refuse_attach(presentation_window_bytes, restart) {
                return refused;
            }
            match sessions.resolve(session.as_str()) {
                Ok(session_id) => RequestAction::Resume {
                    session_id,
                    selector: session,
                    attachment_token,
                    request: AttachParameters {
                        resume_from,
                        client_terminal_size: terminal_size,
                        request_input_lease: false,
                        request_layout_lease: false,
                        request_command_line,
                        request_running_command,
                        presentation_window_bytes,
                    },
                },
                Err(error) => missing(error),
            }
        },
        _ => refusal("this message is valid only after attaching to a session"),
    }
}

/// The answer that lists sessions.
pub fn list_reply(sessions: Vec<SessionInfo>) -> (reply: ServerMessage)
    ensures
        reply matches ServerMessage::SessionList { sessions: listed } && in_listing_order(listed@)
            && listed@.to_multiset() == sessions@.to_multiset(),
{
    ServerMessage::SessionList { sessions: sort_sessions(sessions) }
}

/// The answer that describes a session and its shell, without command text.
pub fn shell_state_reply(session: &Session) -> (reply: ServerMessage)
    ensures
        reply matches ServerMessage::ShellStateResponse { session: info, shell_state }
            && session.is_described_by(info) && shell_state@
            == session.terminal()@.shell.visible_to(false, false),
{
    ServerMessage::ShellStateResponse {
        session: session.info(),
        shell_state: session.shell_state_for_inspection(),
    }
}

/// The answer after a session was told to end.
pub fn kill_reply(result: Result<(), SessionControlError>) -> (reply: ServerMessage)
    ensures
        match result {
            Ok(_) => reply == ServerMessage::Success,
            Err(error) => reply.is_error(control_code(error), error.text()),
        },
{
    match result {
        Ok(_) => ServerMessage::Success,
        Err(error) => control_error(&error),
    }
}

/// The answer after a session came to be.
pub fn created_reply(session: &Session) -> (reply: ServerMessage)
    ensures
        reply matches ServerMessage::SessionCreated { session: info } && session.is_described_by(
            info,
        ),
{
    ServerMessage::SessionCreated { session: session.info() }
}

/// The answer after a session did not come to be. Its name is free again.
pub fn create_failed_reply(
    sessions: &mut SessionManager,
    pending: PendingSession,
    error: SessionManagerError,
) -> (reply: ServerMessage)
    requires
        old(sessions).wf(),
    ensures
        final(sessions).wf(),
        final(sessions).sessions() == old(sessions).sessions(),
        final(sessions).had_session() == old(sessions).had_session(),
        final(sessions).names() == (Names {
            pending: without_text(old(sessions).names().pending, pending.name@),
            ..old(sessions).names()
        }),
        reply.is_error(manager_code(error), error.text()),
{
    sessions.abandon_name(pending.name.as_str());
    session_manager_error(&error)
}

/// What a client is told when the session it wants has ended.
pub open spec fn ended_text(selector: Seq<char>, exit_code: Option<u32>) -> Seq<char> {
    "session '"@ + selector + "' has already ended (exit code "@ + exit_words(exit_code) + ")"@
}

fn ended_reply(selector: &str, exit_code: Option<u32>) -> (reply: ServerMessage)
    ensures
        reply.is_error(ErrorCode::SessionNotFound, ended_text(selector@, exit_code)),
{
    let mut message = between("session '", selector, "' has already ended (exit code ");
    message.append(exit_text(exit_code).as_str());
    message.append(")");
    ServerMessage::Error { code: ErrorCode::SessionNotFound, message }
}

/// An attachment that was admitted and has not been answered yet.
#[derive(Debug, PartialEq, Eq)]
pub struct PreparedAttachment {
    pub registration: AttachmentRegistration,
    /// Whether the attachment existed before.
    pub resumed: bool,
}

/// What became of a request to attach.
pub enum Admission {
    Admitted(PreparedAttachment),
    Refused(ServerMessage),
    /// The drawn token was in use, which only chance decides: ask again.
    DrawAgain,
}

/// Admits a new attachment to a session under an identity that was drawn for
/// it, unless the session has ended. The token has to be drawn again exactly when
/// an attachment of the running session has it.
pub fn prepare_attachment_as(
    session: &mut Session,
    selector: &str,
    request: &AttachParameters,
    attachment_id: String,
    attachment_token: String,
) -> (admission: Admission)
    requires
        old(session).wf(),
    ensures
        final(session).wf(),
        final(session).same_identity(old(session)),
        final(session).terminal() == old(session).terminal(),
        final(session).lifecycle() == old(session).lifecycle(),
        final(session).observes_processes() == old(session).observes_processes(),
        admission is DrawAgain <==> old(session).lifecycle() is Running && old(
            session,
        ).clients().at(attachment_token@) is Some,
        match (old(session).lifecycle(), admission) {
            (SessionLifecycle::Ended { exit_code }, Admission::Refused(reply)) => {
                &&& final(session).clients() == old(session).clients()
                &&& reply.is_error(ErrorCode::SessionNotFound, ended_text(selector@, exit_code))
            },
            (SessionLifecycle::Running, Admission::Admitted(prepared)) => {
                let registration = prepared.registration;
                &&& !prepared.resumed
                &&& registration.attachment_id@ == attachment_id@
                &&& registration.attachment_token@ == attachment_token@
                &&& registration.generation == 0
                &&& final(session).clients() == old(session).clients().joined(
                    attachment_id@,
                    attachment_token@,
                    request.request_input_lease,
                    request.request_layout_lease,
                )
                &&& registration.leases == final(session).clients().leases.both_seen_by(
                    attachment_id@,
                )
            },
            (SessionLifecycle::Running, Admission::DrawAgain) => final(session).clients() == old(
                session,
            ).clients(),
            _ => false,
        },
{
    match session.subscribe_events() {
        Ok(_) => {},
        Err(exit_code) => {
            return Admission::Refused(ended_reply(selector, exit_code));
        },
    }
    match session.register_attachment(
        attachment_id,
        attachment_token,
        request.request_input_lease,
        request.request_layout_lease,
    ) {
        Some(registration) => Admission::Admitted(
            PreparedAttachment { registration, resumed: false },
        ),
        None => Admission::DrawAgain,
    }
}

/// Admits a new attachment to a session, unless the session has ended: draws
/// its identity and hands it to [`prepare_attachment_as`].
pub fn prepare_attachment(session: &mut Session, selector: &str, request: &AttachParameters) -> (
    admission: Admission)
    requires
        old(session).wf(),
    ensures
        final(session).wf(),
        final(session).same_identity(old(session)),
        final(session).terminal() == old(session).terminal(),
        final(session).lifecycle() == old(session).lifecycle(),
        final(session).observes_processes() == old(session).observes_processes(),
        match (old(session).lifecycle(), admission) {
            (SessionLifecycle::Ended { exit_code }, Admission::Refused(reply)) => {
                &&& final(session).clients() == old(session).clients()
                &&& reply.is_error(ErrorCode::SessionNotFound, ended_text(selector@, exit_code))
            },
            (SessionLifecycle::Running, Admission::Admitted(prepared)) => {
                let registration = prepared.registration;
                &&& !prepared.resumed
                &&& hyphenated(registration.attachment_id@)
                &&& plain(registration.attachment_token@)
                &&& old(session).clients().at(registration.attachment_token@) is None
                &&& registration.generation == 0
                &&& final(session).clients() == old(session).clients().joined(
                    registration.attachment_id@,
                    registration.attachment_token@,
                    request.request_input_lease,
                    request.request_layout_lease,
                )
                &&& registration.leases == final(session).clients().leases.both_seen_by(
                    registration.attachment_id@,
                )
            },
            (SessionLifecycle::Running, Admission::DrawAgain) => {
                &&& old(session).clients().has_drawn_token()
                &&& final(session).clients() == old(session).clients()
            },
            _ => false,
        },
{
    let attachment_id = random_id();
    let attachment_token = random_token();
    prepare_attachment_as(session, selector, request, attachment_id, attachment_token)
}

/// Binds a new transport to an attachment that its token names, unless the
/// session has ended or the token is not known any more.
pub fn prepare_resumed_attachment(session: &mut Session, selector: &str, attachment_token: &str) -> (
    result: Result<PreparedAttachment, ServerMessage>)
    requires
        old(session).wf(),
    ensures
        final(session).wf(),
        final(session).same_identity(old(session)),
        final(session).terminal() == old(session).terminal(),
        final(session).lifecycle() == old(session).lifecycle(),
        final(session).observes_processes() == old(session).observes_processes(),
        ({
            let known = old(session).clients().at(attachment_token@);
            match (old(session).lifecycle(), result) {
                (SessionLifecycle::Ended { exit_code }, Err(reply)) => {
                    &&& final(session).clients() == old(session).clients()
                    &&& reply.is_error(
                        ErrorCode::SessionNotFound,
                        ended_text(selector@, exit_code),
                    )
                },
                (SessionLifecycle::Running, Ok(prepared)) => {
                    let registration = prepared.registration;
                    &&& prepared.resumed
                    &&& known is Some
                    &&& known->0.generation < u64::MAX
                    &&& final(session).clients() == old(session).clients().resumed(
                        attachment_token@,
                    )
                    &&& registration.attachment_id@ == known->0.id
                    &&& registration.attachment_token@ == attachment_token@
                    &&& registration.generation == known->0.generation + 1
                    &&& registration.leases == old(session).clients().leases.both_seen_by(
                        known->0.id,
                    )
                },
                (SessionLifecycle::Running, Err(reply)) => {
                    &&& known is None || known->0.generation == u64::MAX
                    &&& final(session).clients() == old(session).clients()
                    &&& reply.is_error(
                        ErrorCode::AttachmentResumeRejected,
                        "the attachment reconnect token is invalid or expired"@,
                    )
                },
                _ => false,
            }
        }),
{
    match session.subscribe_events() {
        Ok(_) => {},
        Err(exit_code) => {
            return Err(ended_reply(selector, exit_code));
        },
    }
    match session.resume_attachment(attachment_token) {
        Some(registration) => Ok(PreparedAttachment { registration, resumed: true }),
        None => Err(
            ServerMessage::Error {
                code: ErrorCode::AttachmentResumeRejected,
                message: "the attachment reconnect token is invalid or expired".to_owned(),
            },
        ),
    }
}

impl PreparedAttachment {
    /// Whether the terminal takes the client's size before the attachment is
    /// answered: only for the owner of the layout lease.
    pub fn applies_initial_resize(&self) -> (applies: bool)
        ensures
            applies == self.registration.leases.layout.owned_by_client,
    {
        self.registration.leases.layout.owned_by_client
    }
}

/// Whether a message tells an attaching client what a snapshot holds.
pub open spec fn attached_with(
    message: ServerMessage,
    snapshot: AttachSnapshot,
    prepared: PreparedAttachment,
    request: AttachParameters,
) -> bool {
    message matches ServerMessage::Attached {
        attachment_token,
        session,
        earliest_sequence,
        next_sequence,
        replay_from,
        history_gap,
        checkpoint,
        history,
        terminal_size_mismatch,
        input_lease,
        layout_lease,
        shell_state,
    } && {
        &&& attachment_token@ == prepared.registration.attachment_token@
        &&& session == snapshot.session
        &&& earliest_sequence == snapshot.journal.earliest_sequence
        &&& next_sequence == snapshot.journal.next_sequence
        &&& replay_from == snapshot.journal.replay_from
        &&& history_gap == snapshot.history_gap
        &&& checkpoint == snapshot.checkpoint
        &&& history == snapshot.history
        &&& terminal_size_mismatch == (snapshot.session.terminal_size
            != request.client_terminal_size)
        &&& input_lease == prepared.registration.leases.input
        &&& layout_lease == prepared.registration.leases.layout
        &&& shell_state@ == snapshot.shell_state@.visible_to(
            request.request_command_line && prepared.registration.leases.input.owned_by_client,
            request.request_running_command && prepared.registration.leases.input.owned_by_client,
        )
    }
}

/// Answers an admitted attachment and opens its stream. A client that asks for
/// output that does not exist yet is refused.
pub fn open_attachment(
    session: &Session,
    prepared: &PreparedAttachment,
    request: &AttachParameters,
) -> (result: Result<(ServerMessage, LiveAttachment), ServerMessage>)
    requires
        session.wf(),
        window_valid(request.presentation_window_bytes),
    ensures
        ({
            let next = session.terminal().journal().next();
            &&& result is Err <==> request.resume_from is Some && request.resume_from->0 > next
            &&& match result {
                Err(reply) => reply.is_error(
                    ErrorCode::SequenceAhead,
                    JournalError::SequenceAhead {
                        requested: request.resume_from->0,
                        next: next as u64,
                    }.text(),
                ),
                Ok((message, attachment)) => {
                    &&& attachment.wf()
                    &&& exists|snapshot: AttachSnapshot|
                        {
                            &&& #[trigger] delivered(
                                *session,
                                request.resume_from,
                                None,
                                Ok(snapshot),
                            )
                            &&& attached_with(message, snapshot, *prepared, *request)
                            &&& attachment@ == (Stream {
                                sent: snapshot.journal.replay_from,
                                geometry: snapshot.checkpoint_geometry_revision,
                                shell: session.terminal()@.shell.revision,
                                window: request.presentation_window_bytes,
                                applied: if snapshot.checkpoint is Some {
                                    None
                                } else {
                                    Some(snapshot.journal.replay_from)
                                },
                                frames: Seq::empty(),
                                command_line: request.request_command_line,
                                running_command: request.request_running_command,
                            })
                        }
                },
            }
        }),
{
    let taken = session.snapshot_for_attach(request.resume_from);
    let ghost whole = taken;
    let snapshot = match taken {
        Ok(snapshot) => snapshot,
        Err(error) => {
            return Err(
                ServerMessage::Error { code: ErrorCode::SequenceAhead, message: error.message() },
            );
        },
    };
    let ghost seen = snapshot;
    let leases = prepared.registration.leases;
    let terminal_size_mismatch = snapshot.session.terminal_size != request.client_terminal_size;
    let shell_state = snapshot.shell_state.filtered_for_visibility(
        request.request_command_line && leases.input.owned_by_client,
        request.request_running_command && leases.input.owned_by_client,
    );
    let attachment = LiveAttachment::new(
        snapshot.journal.replay_from,
        snapshot.checkpoint_geometry_revision,
        snapshot.checkpoint.is_some(),
        shell_state.revision,
        request.presentation_window_bytes,
        request.request_command_line,
        request.request_running_command,
    );
    let message = ServerMessage::Attached {
        attachment_token: prepared.registration.attachment_token.clone(),
        session: snapshot.session,
        earliest_sequence: snapshot.journal.earliest_sequence,
        next_sequence: snapshot.journal.next_sequence,
        replay_from: snapshot.journal.replay_from,
        history_gap: snapshot.history_gap,
        checkpoint: snapshot.checkpoint,
        history: snapshot.history,
        terminal_size_mismatch,
        input_lease: leases.input,
        layout_lease: leases.layout,
        shell_state,
    };
    assert(delivered(*session, request.resume_from, None, Ok(seen)));
    Ok((message, attachment))
}

/// An attaching client is told what the snapshot holds; of command text only
/// what it asked for, and only if it got the input lease. It is told that the
/// grids differ exactly when they do.
pub proof fn an_attaching_client_is_told_the_snapshot(
    message: ServerMessage,
    snapshot: AttachSnapshot,
    prepared: PreparedAttachment,
    request: AttachParameters,
)
    requires
        attached_with(message, snapshot, prepared, request),
    ensures
        message matches ServerMessage::Attached {
            session,
            replay_from,
            history_gap,
            checkpoint,
            history,
            terminal_size_mismatch,
            input_lease,
            layout_lease,
            shell_state,
            ..
        } && {
            &&& session.terminal_size == snapshot.session.terminal_size
            &&& replay_from == snapshot.journal.replay_from
            &&& checkpoint == snapshot.checkpoint && history == snapshot.history
            &&& history_gap == snapshot.history_gap
            &&& !terminal_size_mismatch <==> session.terminal_size == request.client_terminal_size
            &&& input_lease == prepared.registration.leases.input
            &&& layout_lease == prepared.registration.leases.layout
            &&& !input_lease.owned_by_client ==> shell_state@.line is None && shell_state@.running
                is None
            &&& !request.request_command_line ==> shell_state@.line is None
            &&& !request.request_running_command ==> shell_state@.running is None
            &&& input_lease.owned_by_client && request.request_command_line ==> shell_state@.line
                == snapshot.shell_state@.line
            &&& input_lease.owned_by_client && request.request_running_command
                ==> shell_state@.running == snapshot.shell_state@.running
            &&& shell_state@.revision == snapshot.shell_state@.revision
        },
{
}

/// A client may attach exactly when its window is in order and the daemon is
/// not about to end.
pub proof fn only_a_draining_daemon_refuses_good_windows(window: u64, draining: bool)
    ensures
        attach_refusal(window, draining) is None <==> 1 <= window <= 8_388_608 && !draining,
{
}

} // verus!
