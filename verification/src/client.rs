//! What a client of the daemon says, and what it makes of the answers.
use vstd::prelude::*;
use vstd::string::*;

use crate::codec::CodecError;
use crate::ipc::IoFailure;
use crate::proto::{
    ClientMessage, ErrorCode, LeaseStatus, ServerMessage, SessionInfo, ShellState,
    TerminalCheckpoint, TerminalSize, PROTOCOL_VERSION,
};
use crate::text::{between, decimal, decimal_text, prefixed};

verus! {

/// The window that clients grant unless they have a reason not to.
pub const DEFAULT_PRESENTATION_WINDOW_BYTES: u64 = 262_144;

/// Stable metadata sent during the protocol handshake.
#[derive(Debug, PartialEq, Eq)]
pub struct ClientIdentity {
    pub name: String,
    pub version: String,
}

/// Parameters for opening an attachment over an already-selected transport.
#[derive(Debug, PartialEq, Eq)]
pub struct AttachRequest {
    pub session: String,
    pub resume_from: Option<u64>,
    pub terminal_size: TerminalSize,
    pub request_input_lease: bool,
    pub request_layout_lease: bool,
    /// Request the current editable command line when daemon policy allows it.
    pub request_command_line: bool,
    /// Request the running command when daemon policy allows it.
    pub request_running_command: bool,
    /// How many unconfirmed output bytes the client can hold.
    pub presentation_window_bytes: u64,
}

/// Portable attachment liveness settings negotiated during the handshake, in
/// milliseconds.
///
/// A client should send a heartbeat at least this often and regard an
/// attachment as disconnected when no server message arrives within the peer
/// timeout.
#[derive(Debug, Clone, Copy, PartialEq, Eq, Structural)]
pub struct AttachmentLiveness {
    pub heartbeat_interval: u64,
    pub peer_timeout: u64,
}

/// Metadata returned by a successful handshake.
#[derive(Debug, Clone, Copy, PartialEq, Eq, Structural)]
pub struct HandshakeInfo {
    pub attachment_liveness: AttachmentLiveness,
}

/// A current shell-awareness snapshot retrieved without an attachment.
#[derive(Debug, PartialEq, Eq)]
pub struct SessionShellState {
    pub session: SessionInfo,
    pub shell_state: ShellState,
}

/// A latest-value cache of complete shell-awareness state snapshots.
///
/// A cache is initialized from the `attached` snapshot and accepts only
/// strictly newer daemon revisions. It is deliberately independent of raw
/// output sequence tracking.
#[derive(Debug, PartialEq, Eq)]
pub struct ShellStateCache {
    state: ShellState,
}

impl ShellStateCache {
    /// The cached state.
    pub closed spec fn cached(&self) -> ShellState {
        self.state
    }

    /// Creates a cache initialized with an attachment or one-shot state
    /// snapshot.
    pub fn new(initial_state: ShellState) -> (cache: Self)
        ensures
            cache.cached() == initial_state,
    {
        ShellStateCache { state: initial_state }
    }

    /// Returns the latest accepted complete shell-awareness snapshot.
    pub fn snapshot(&self) -> (state: ShellState)
        ensures
            state == self.cached(),
    {
        self.state.clone()
    }

    /// Replaces the cached snapshot only when it has a newer daemon revision.
    ///
    /// Returns whether the cache changed. Equal revisions are deliberately
    /// ignored so a delayed event cannot regress per-attachment state.
    pub fn apply_if_newer(&mut self, state: ShellState) -> (changed: bool)
        ensures
            changed == (state.revision > old(self).cached().revision),
            final(self).cached() == if changed {
                state
            } else {
                old(self).cached()
            },
    {
        if state.revision <= self.state.revision {
            return false;
        }
        self.state = state;
        true
    }
}

/// Session metadata and attachment-relative state returned by the daemon.
#[derive(Debug, PartialEq, Eq)]
pub struct AttachedSession {
    /// The credential that resumes this attachment over another transport.
    pub attachment_token: String,
    pub session: SessionInfo,
    pub replay_from: u64,
    pub history_gap: bool,
    pub checkpoint: Option<TerminalCheckpoint>,
    pub terminal_size_mismatch: bool,
    pub input_lease: LeaseStatus,
    pub layout_lease: LeaseStatus,
    /// Complete shell-awareness state as it existed when the attachment opened.
    pub shell_state: ShellState,
    /// Server-negotiated attachment liveness settings.
    pub liveness: AttachmentLiveness,
}

impl AttachedSession {
    /// A cache that begins with the state at which the attachment opened.
    pub fn shell_state_cache(&self) -> (cache: ShellStateCache)
        ensures
            cache.cached() == self.shell_state,
    {
        ShellStateCache::new(self.shell_state.clone())
    }
}

/// Failure to queue a presentation command locally.
#[derive(Debug, Clone, Copy, PartialEq, Eq, Structural)]
pub enum AttachmentCommandError {
    InputLeaseRequired,
    LayoutLeaseRequired,
    Closed,
}

impl AttachmentCommandError {
    pub open spec fn text(self) -> Seq<char> {
        match self {
            AttachmentCommandError::InputLeaseRequired =>
                "this attachment does not own the input lease"@,
            AttachmentCommandError::LayoutLeaseRequired =>
                "this attachment does not own the PTY layout lease"@,
            AttachmentCommandError::Closed => "attachment controller is no longer running"@,
        }
    }

    /// The error in words.
    pub fn message(&self) -> (message: String)
        ensures
            message@ == self.text(),
    {
        match self {
            AttachmentCommandError::InputLeaseRequired =>
                "this attachment does not own the input lease".to_owned(),
            AttachmentCommandError::LayoutLeaseRequired =>
                "this attachment does not own the PTY layout lease".to_owned(),
            AttachmentCommandError::Closed =>
                "attachment controller is no longer running".to_owned(),
        }
    }
}

/// Failure to queue a renderer acknowledgement locally.
#[derive(Debug, Clone, Copy, PartialEq, Eq, Structural)]
pub enum AttachmentAcknowledgementError {
    Closed,
}

impl AttachmentAcknowledgementError {
    /// The error in words.
    pub fn message(&self) -> (message: &'static str)
        ensures
            message@ == "attachment controller is no longer running"@,
    {
        "attachment controller is no longer running"
    }
}

/// Why a client could not go on.
#[allow(inconsistent_fields)]
#[derive(Debug, PartialEq, Eq)]
pub enum ClientError {
    Codec(CodecError),
    Io(IoFailure),
    UnexpectedEof,
    InvalidAttachmentLiveness { heartbeat_interval_ms: u64, attachment_liveness_timeout_ms: u64 },
    InvalidAttachmentQueueCapacity { command_queue_capacity: usize, event_queue_capacity: usize },
    InvalidPresentationBackpressureTimeout,
    Server { code: ErrorCode, message: String },
    AttachmentCommand(AttachmentCommandError),
    UnsupportedCheckpoint { format: String, format_version: u16 },
    InvalidInitialCheckpointSequence { checkpoint_sequence: u64, replay_from: u64 },
    InvalidOutputSequence {
        expected_sequence: u64,
        sequence_start: u64,
        sequence_end: u64,
        data_len: usize,
    },
    StaleCheckpoint { checkpoint_sequence: u64, previous_sequence: u64 },
    GeometryAheadOfOutput { expected_sequence: u64, observed_sequence: u64 },
    UnexpectedPresentationAcknowledgement { expected: &'static str, actual: &'static str },
    UnexpectedResponse { expected: &'static str, actual: ServerMessage },
}

impl ClientError {
    /// The error in words. `shown` is how an unexpected response is shown.
    pub open spec fn text(self, shown: Seq<char>) -> Seq<char> {
        match self {
            ClientError::Codec(error) => error.text(Seq::empty()),
            ClientError::Io(error) => "terminal I/O error: "@ + error.message@,
            ClientError::UnexpectedEof => "daemon closed the connection before responding"@,
            ClientError::InvalidAttachmentLiveness {
                heartbeat_interval_ms,
                attachment_liveness_timeout_ms,
            } => "server announced invalid attachment liveness settings: heartbeat "@ + decimal(
                heartbeat_interval_ms as nat,
            ) + "ms, timeout "@ + decimal(attachment_liveness_timeout_ms as nat) + "ms"@,
            ClientError::InvalidAttachmentQueueCapacity {
                command_queue_capacity,
                event_queue_capacity,
            } =>
                "attachment controller queue capacities must both be non-zero (commands "@
                    + decimal(command_queue_capacity as nat) + ", events "@ + decimal(
                    event_queue_capacity as nat,
                ) + ")"@,
            ClientError::InvalidPresentationBackpressureTimeout =>
                "attachment controller presentation backpressure timeout must be non-zero"@,
            ClientError::Server { code, message } => "daemon error "@ + code.name() + ": "@
                + message@,
            ClientError::AttachmentCommand(error) => error.text(),
            ClientError::UnsupportedCheckpoint { format, format_version } =>
                "unsupported terminal checkpoint format "@ + format@ + " version "@ + decimal(
                    format_version as nat,
                ),
            ClientError::InvalidInitialCheckpointSequence { checkpoint_sequence, replay_from } =>
                "initial checkpoint sequence "@ + decimal(checkpoint_sequence as nat)
                    + " does not match replay start "@ + decimal(replay_from as nat),
            ClientError::InvalidOutputSequence {
                expected_sequence,
                sequence_start,
                sequence_end,
                data_len,
            } => "invalid output frame: expected start "@ + decimal(expected_sequence as nat)
                + ", got ["@ + decimal(sequence_start as nat) + ", "@ + decimal(
                sequence_end as nat,
            ) + ") for "@ + decimal(data_len as nat) + " bytes"@,
            ClientError::StaleCheckpoint { checkpoint_sequence, previous_sequence } =>
                "checkpoint sequence "@ + decimal(checkpoint_sequence as nat)
                    + " regresses previously received sequence "@ + decimal(
                    previous_sequence as nat,
                ),
            ClientError::GeometryAheadOfOutput { expected_sequence, observed_sequence } =>
                "PTY geometry at raw sequence "@ + decimal(observed_sequence as nat)
                    + " arrived before expected raw output through "@ + decimal(
                    expected_sequence as nat,
                ),
            ClientError::UnexpectedPresentationAcknowledgement { expected, actual } =>
                "unexpected presentation acknowledgement "@ + actual@ + "; expected "@ + expected@,
            ClientError::UnexpectedResponse { expected, .. } => "expected "@ + expected@
                + ", received "@ + shown,
        }
    }

    /// The error in words. `shown` is how an unexpected response is shown.
    pub fn message(&self, shown: &str) -> (message: String)
        ensures
            message@ == self.text(shown@),
    {
        match self {
            ClientError::Codec(error) => error.message(),
            ClientError::Io(error) => prefixed("terminal I/O error: ", error.message.as_str()),
            ClientError::UnexpectedEof =>
                "daemon closed the connection before responding".to_owned(),
            ClientError::InvalidAttachmentLiveness {
                heartbeat_interval_ms,
                attachment_liveness_timeout_ms,
            } => {
                let mut message = between(
                    "server announced invalid attachment liveness settings: heartbeat ",
                    decimal_text(*heartbeat_interval_ms).as_str(),
                    "ms, timeout ",
                );
                message.append(decimal_text(*attachment_liveness_timeout_ms).as_str());
                message.append("ms");
                message
            },
            ClientError::InvalidAttachmentQueueCapacity {
                command_queue_capacity,
                event_queue_capacity,
            } => {
                let mut message = between(
                    "attachment controller queue capacities must both be non-zero (commands ",
                    decimal_text(*command_queue_capacity as u64).as_str(),
                    ", events ",
                );
                message.append(decimal_text(*event_queue_capacity as u64).as_str());
                message.append(")");
                message
            },
            ClientError::InvalidPresentationBackpressureTimeout =>
                "attachment controller presentation backpressure timeout must be non-zero".to_owned(),
            ClientError::Server { code, message } => {
                let mut text = between("daemon error ", code.label(), ": ");
                text.append(message.as_str());
                text
            },
            ClientError::AttachmentCommand(error) => error.message(),
            ClientError::UnsupportedCheckpoint { format, format_version } => {
                let mut message = between(
                    "unsupported terminal checkpoint format ",
                    format.as_str(),
                    " version ",
                );
                message.append(decimal_text(*format_version as u64).as_str());
                message
            },
            ClientError::InvalidInitialCheckpointSequence { checkpoint_sequence, replay_from } => {
                let mut message = between(
                    "initial checkpoint sequence ",
                    decimal_text(*checkpoint_sequence).as_str(),
                    " does not match replay start ",
                );
                message.append(decimal_text(*replay_from).as_str());
                message
            },
            ClientError::InvalidOutputSequence {
                expected_sequence,
                sequence_start,
                sequence_end,
                data_len,
            } => {
                let mut message = between(
                    "invalid output frame: expected start ",
                    decimal_text(*expected_sequence).as_str(),
                    ", got [",
                );
                message.append(decimal_text(*sequence_start).as_str());
                message.append(", ");
                message.append(decimal_text(*sequence_end).as_str());
                message.append(") for ");
                message.append(decimal_text(*data_len as u64).as_str());
                message.append(" bytes");
                message
            },
            ClientError::StaleCheckpoint { checkpoint_sequence, previous_sequence } => {
                let mut message = between(
                    "checkpoint sequence ",
                    decimal_text(*checkpoint_sequence).as_str(),
                    " regresses previously received sequence ",
                );
                message.append(decimal_text(*previous_sequence).as_str());
                message
            },
            ClientError::GeometryAheadOfOutput { expected_sequence, observed_sequence } => {
                let mut message = between(
                    "PTY geometry at raw sequence ",
                    decimal_text(*observed_sequence).as_str(),
                    " arrived before expected raw output through ",
                );
                message.append(decimal_text(*expected_sequence).as_str());
                message
            },
            ClientError::UnexpectedPresentationAcknowledgement { expected, actual } => {
                let mut message = between(
                    "unexpected presentation acknowledgement ",
                    actual,
                    "; expected ",
                );
                message.append(expected);
                message
            },
            ClientError::UnexpectedResponse { expected, .. } => {
                let mut message = between("expected ", expected, ", received ");
                message.append(shown);
                message
            },
        }
    }

    /// Whether the error reports that a message was not the expected one.
    pub open spec fn is_unexpected(self, expected: Seq<char>, actual: ServerMessage) -> bool {
        self matches ClientError::UnexpectedResponse { expected: e, actual: a } && e@ == expected
            && a == actual
    }
}

/// The liveness settings that a daemon announced. Heartbeats have to come more
/// often than silence is tolerated.
pub fn attachment_liveness(heartbeat_interval_ms: u64, attachment_liveness_timeout_ms: u64) -> (
    result: Result<AttachmentLiveness, ClientError>)
    ensures
        result == if 0 < heartbeat_interval_ms < attachment_liveness_timeout_ms {
            Ok(
                AttachmentLiveness {
                    heartbeat_interval: heartbeat_interval_ms,
                    peer_timeout: attachment_liveness_timeout_ms,
                },
            )
        } else {
            Err(
                ClientError::InvalidAttachmentLiveness {
                    heartbeat_interval_ms,
                    attachment_liveness_timeout_ms,
                },
            )
        },
{
    if heartbeat_interval_ms == 0 || attachment_liveness_timeout_ms == 0 || heartbeat_interval_ms
        >= attachment_liveness_timeout_ms {
        return Err(
            ClientError::InvalidAttachmentLiveness {
                heartbeat_interval_ms,
                attachment_liveness_timeout_ms,
            },
        );
    }
    Ok(
        AttachmentLiveness {
            heartbeat_interval: heartbeat_interval_ms,
            peer_timeout: attachment_liveness_timeout_ms,
        },
    )
}

/// The answer in what was read; `None` stands for the end of the stream.
pub fn read_response(message: Option<ServerMessage>) -> (result: Result<ServerMessage, ClientError>)
    ensures
        match message {
            Some(ServerMessage::Error { code, message: text }) => result == Err::<
                ServerMessage,
                _,
            >(ClientError::Server { code, message: text }),
            Some(answer) => result == Ok::<_, ClientError>(answer),
            None => result == Err::<ServerMessage, _>(ClientError::UnexpectedEof),
        },
{
    match message {
        Some(ServerMessage::Error { code, message: text }) => Err(
            ClientError::Server { code, message: text },
        ),
        Some(answer) => Ok(answer),
        None => Err(ClientError::UnexpectedEof),
    }
}

/// The message that opens a connection.
pub fn handshake_message(identity: &ClientIdentity) -> (message: ClientMessage)
    ensures
        message == (ClientMessage::Handshake {
            protocol_version: PROTOCOL_VERSION,
            client_name: identity.name,
            client_version: identity.version,
        }),
{
    ClientMessage::Handshake {
        protocol_version: PROTOCOL_VERSION,
        client_name: identity.name.clone(),
        client_version: identity.version.clone(),
    }
}

/// What a daemon agreed to, by its answer to a handshake.
pub fn handshake(response: ServerMessage) -> (result: Result<HandshakeInfo, ClientError>)
    ensures
        match response {
            ServerMessage::HandshakeAccepted {
                protocol_version,
                heartbeat_interval_ms,
                attachment_liveness_timeout_ms,
                ..
            } => if protocol_version != PROTOCOL_VERSION {
                result is Err && result->Err_0.is_unexpected("handshake_accepted"@, response)
            } else if 0 < heartbeat_interval_ms < attachment_liveness_timeout_ms {
                result == Ok::<_, ClientError>(
                    HandshakeInfo {
                        attachment_liveness: AttachmentLiveness {
                            heartbeat_interval: heartbeat_interval_ms,
                            peer_timeout: attachment_liveness_timeout_ms,
                        },
                    },
                )
            } else {
                result == Err::<HandshakeInfo, _>(
                    ClientError::InvalidAttachmentLiveness {
                        heartbeat_interval_ms,
                        attachment_liveness_timeout_ms,
                    },
                )
            },
            _ => result is Err && result->Err_0.is_unexpected("handshake_accepted"@, response),
        },
{
    if let ServerMessage::HandshakeAccepted {
        protocol_version,
        heartbeat_interval_ms,
        attachment_liveness_timeout_ms,
        ..
    } = &response {
        if *protocol_version == PROTOCOL_VERSION {
            return match attachment_liveness(
                *heartbeat_interval_ms,
                *attachment_liveness_timeout_ms,
            ) {
                Ok(attachment_liveness) => Ok(HandshakeInfo { attachment_liveness }),
                Err(error) => Err(error),
            };
        }
    }
    Err(ClientError::UnexpectedResponse { expected: "handshake_accepted", actual: response })
}

/// The message that asks for the shell state of a session.
pub fn shell_state_message(session: String) -> (message: ClientMessage)
    ensures
        message == (ClientMessage::GetShellState { session }),
{
    ClientMessage::GetShellState { session }
}

/// The shell state of a session, by the answer to a request for it.
pub fn get_shell_state(response: ServerMessage) -> (result: Result<SessionShellState, ClientError>)
    ensures
        match response {
            ServerMessage::ShellStateResponse { session, shell_state } => result == Ok::<
                _,
                ClientError,
            >(SessionShellState { session, shell_state }),
            _ => result is Err && result->Err_0.is_unexpected("shell_state_response"@, response),
        },
{
    match response {
        ServerMessage::ShellStateResponse { session, shell_state } => Ok(
            SessionShellState { session, shell_state },
        ),
        response => Err(
            ClientError::UnexpectedResponse { expected: "shell_state_response", actual: response },
        ),
    }
}

/// The message that opens an attachment.
pub fn attach_message(request: AttachRequest) -> (message: ClientMessage)
    ensures
        message == (ClientMessage::AttachSession {
            session: request.session,
            resume_from: request.resume_from,
            terminal_size: request.terminal_size,
            request_input_lease: request.request_input_lease,
            request_layout_lease: request.request_layout_lease,
            request_command_line: request.request_command_line,
            request_running_command: request.request_running_command,
            presentation_window_bytes: request.presentation_window_bytes,
        }),
{
    ClientMessage::AttachSession {
        session: request.session,
        resume_from: request.resume_from,
        terminal_size: request.terminal_size,
        request_input_lease: request.request_input_lease,
        request_layout_lease: request.request_layout_lease,
        request_command_line: request.request_command_line,
        request_running_command: request.request_running_command,
        presentation_window_bytes: request.presentation_window_bytes,
    }
}

/// The message that resumes an attachment over another transport. It keeps the
/// leases that it has and asks for none.
pub fn resume_message(attachment_token: String, request: AttachRequest) -> (message: ClientMessage)
    ensures
        message == (ClientMessage::ResumeAttachment {
            session: request.session,
            attachment_token,
            resume_from: request.resume_from,
            terminal_size: request.terminal_size,
            request_command_line: request.request_command_line,
            request_running_command: request.request_running_command,
            presentation_window_bytes: request.presentation_window_bytes,
        }),
{
    ClientMessage::ResumeAttachment {
        session: request.session,
        attachment_token,
        resume_from: request.resume_from,
        terminal_size: request.terminal_size,
        request_command_line: request.request_command_line,
        request_running_command: request.request_running_command,
        presentation_window_bytes: request.presentation_window_bytes,
    }
}

/// The attachment that an answer opens.
pub fn begin_attach(response: ServerMessage, handshake: HandshakeInfo) -> (result: Result<
    AttachedSession,
    ClientError,
>)
    ensures
        match response {
            ServerMessage::Attached {
                attachment_token,
                session,
                earliest_sequence: _,
                next_sequence: _,
                replay_from,
                history_gap,
                checkpoint,
                history: _,
                terminal_size_mismatch,
                input_lease,
                layout_lease,
                shell_state,
            } => result == Ok::<_, ClientError>(
                AttachedSession {
                    attachment_token,
                    session,
                    replay_from,
                    history_gap,
                    checkpoint,
                    terminal_size_mismatch,
                    input_lease,
                    layout_lease,
                    shell_state,
                    liveness: handshake.attachment_liveness,
                },
            ),
            _ => result is Err && result->Err_0.is_unexpected("attached"@, response),
        },
{
    match response {
        ServerMessage::Attached {
            attachment_token,
            session,
            earliest_sequence: _,
            next_sequence: _,
            replay_from,
            history_gap,
            checkpoint,
            history: _,
            terminal_size_mismatch,
            input_lease,
            layout_lease,
            shell_state,
        } => Ok(
            AttachedSession {
                attachment_token,
                session,
                replay_from,
                history_gap,
                checkpoint,
                terminal_size_mismatch,
                input_lease,
                layout_lease,
                shell_state,
                liveness: handshake.attachment_liveness,
            },
        ),
        response => Err(
            ClientError::UnexpectedResponse { expected: "attached", actual: response },
        ),
    }
}

} // verus!
