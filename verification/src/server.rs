//! How the daemon answers its clients.
use vstd::prelude::*;
use vstd::string::*;

use crate::ipc::{
    LocalControlClientMessage, LocalControlErrorCode, LocalControlServerMessage,
    LOCAL_CONTROL_PROTOCOL_VERSION,
};
use crate::manager::{SessionManager, SessionManagerError};
use crate::proto::{ClientMessage, ErrorCode, ServerMessage, PROTOCOL_VERSION};
use crate::session::SessionControlError;
use crate::text::{between, decimal, decimal_text, duration_text, duration_words, prefixed};

verus! {

/// The shortest silence, in milliseconds, after which an attachment may expire.
pub const MIN_ATTACHMENT_LIVENESS_TIMEOUT: u64 = 100;

/// The longest silence, in milliseconds, after which an attachment expires.
pub const MAX_ATTACHMENT_LIVENESS_TIMEOUT: u64 = 300_000;

pub const DEFAULT_ATTACHMENT_LIVENESS_TIMEOUT: u64 = 30_000;

/// How long the first answer to an attaching client may take, in milliseconds.
///
/// An attachment cannot prove liveness before it received that answer, because
/// the answer carries its token, checkpoint, leases and heartbeat cadence.
pub const INITIAL_ATTACHMENT_DELIVERY_TIMEOUT: u64 = 300_000;

/// How long a local-control client may take to introduce itself, in
/// milliseconds.
pub const LOCAL_CONTROL_HANDSHAKE_TIMEOUT: u64 = 3_000;

/// How long a local-control client may take between its handshake and its
/// request, in milliseconds. It outlasts the time in which a graphical client
/// detaches its own view.
pub const LOCAL_CONTROL_ARMED_REQUEST_TIMEOUT: u64 = 30_000;

pub const DAEMON_DRAINING_MESSAGE: &'static str = "rmuxd is draining for a cooperative restart";

/// How a daemon is set up. Times are in milliseconds.
#[derive(Debug, PartialEq, Eq)]
pub struct DaemonConfig {
    pub socket_path: String,
    pub journal_capacity_bytes: usize,
    pub checkpoint_interval_bytes: u64,
    pub startup_idle_timeout: u64,
    /// Maximum silence before a transport expires, and the reconnect grace used
    /// after an unexpected transport loss.
    pub attachment_liveness_timeout: u64,
}

impl DaemonConfig {
    /// The usual setup for an endpoint.
    pub fn serving(socket_path: String) -> (config: Self)
        ensures
            config == (DaemonConfig {
                socket_path,
                journal_capacity_bytes: 4_194_304,
                checkpoint_interval_bytes: 262_144,
                startup_idle_timeout: 10_000,
                attachment_liveness_timeout: DEFAULT_ATTACHMENT_LIVENESS_TIMEOUT,
            }),
    {
        DaemonConfig {
            socket_path,
            journal_capacity_bytes: 4_194_304,
            checkpoint_interval_bytes: 262_144,
            startup_idle_timeout: 10_000,
            attachment_liveness_timeout: DEFAULT_ATTACHMENT_LIVENESS_TIMEOUT,
        }
    }
}

/// Why a daemon could not run. Failures of the system are given in its words.
#[derive(Debug, PartialEq, Eq)]
pub enum DaemonError {
    RuntimeDirectory(String),
    AlreadyRunning(String),
    Bind { path: String, source: String },
    ControlSocketPath { path: String, source: String },
    Io(String),
    InvalidAttachmentLivenessTimeout { actual: u64, minimum: u64, maximum: u64 },
    EndpointStartupLock { path: String, source: String },
}

impl DaemonError {
    pub open spec fn text(self) -> Seq<char> {
        match self {
            DaemonError::RuntimeDirectory(source) => "could not prepare the runtime directory: "@
                + source@,
            DaemonError::AlreadyRunning(path) => "another rmuxd is already listening at "@ + path@,
            DaemonError::Bind { path, source } => "could not bind local socket "@ + path@ + ": "@
                + source@,
            DaemonError::ControlSocketPath { path, source } =>
                "could not derive local-control socket from "@ + path@ + ": "@ + source@,
            DaemonError::Io(source) => "daemon I/O error: "@ + source@,
            DaemonError::InvalidAttachmentLivenessTimeout { actual, minimum, maximum } =>
                "attachment liveness timeout "@ + duration_words(actual) + " must be between "@
                    + duration_words(minimum) + " and "@ + duration_words(maximum),
            DaemonError::EndpointStartupLock { path, source } =>
                "could not lock local endpoint startup at "@ + path@ + ": "@ + source@,
        }
    }

    /// The error in words.
    pub fn message(&self) -> (message: String)
        ensures
            message@ == self.text(),
    {
        match self {
            DaemonError::RuntimeDirectory(source) => prefixed(
                "could not prepare the runtime directory: ",
                source.as_str(),
            ),
            DaemonError::AlreadyRunning(path) => prefixed(
                "another rmuxd is already listening at ",
                path.as_str(),
            ),
            DaemonError::Bind { path, source } => {
                let mut message = between("could not bind local socket ", path.as_str(), ": ");
                message.append(source.as_str());
                message
            },
            DaemonError::ControlSocketPath { path, source } => {
                let mut message = between(
                    "could not derive local-control socket from ",
                    path.as_str(),
                    ": ",
                );
                message.append(source.as_str());
                message
            },
            DaemonError::Io(source) => prefixed("daemon I/O error: ", source.as_str()),
            DaemonError::InvalidAttachmentLivenessTimeout { actual, minimum, maximum } => {
                let mut message = between(
                    "attachment liveness timeout ",
                    duration_text(*actual).as_str(),
                    " must be between ",
                );
                message.append(duration_text(*minimum).as_str());
                message.append(" and ");
                message.append(duration_text(*maximum).as_str());
                message
            },
            DaemonError::EndpointStartupLock { path, source } => {
                let mut message = between(
                    "could not lock local endpoint startup at ",
                    path.as_str(),
                    ": ",
                );
                message.append(source.as_str());
                message
            },
        }
    }
}

/// The liveness terms of attachments, in milliseconds.
#[derive(Debug, Clone, Copy, PartialEq, Eq, Structural)]
pub struct AttachmentLiveness {
    pub timeout_ms: u64,
    pub heartbeat_interval_ms: u64,
}

/// The liveness terms for a chosen timeout: heartbeats come three times as
/// often.
pub fn attachment_liveness(timeout: u64) -> (result: Result<AttachmentLiveness, DaemonError>)
    ensures
        match result {
            Ok(liveness) => {
                &&& MIN_ATTACHMENT_LIVENESS_TIMEOUT <= timeout <= MAX_ATTACHMENT_LIVENESS_TIMEOUT
                &&& liveness.timeout_ms == timeout
                &&& liveness.heartbeat_interval_ms == timeout / 3
                &&& 0 < liveness.heartbeat_interval_ms < liveness.timeout_ms
            },
            Err(error) => {
                &&& !(MIN_ATTACHMENT_LIVENESS_TIMEOUT <= timeout
                    <= MAX_ATTACHMENT_LIVENESS_TIMEOUT)
                &&& error == (DaemonError::InvalidAttachmentLivenessTimeout {
                    actual: timeout,
                    minimum: MIN_ATTACHMENT_LIVENESS_TIMEOUT,
                    maximum: MAX_ATTACHMENT_LIVENESS_TIMEOUT,
                })
            },
        },
{
    if timeout < MIN_ATTACHMENT_LIVENESS_TIMEOUT || timeout > MAX_ATTACHMENT_LIVENESS_TIMEOUT {
        return Err(
            DaemonError::InvalidAttachmentLivenessTimeout {
                actual: timeout,
                minimum: MIN_ATTACHMENT_LIVENESS_TIMEOUT,
                maximum: MAX_ATTACHMENT_LIVENESS_TIMEOUT,
            },
        );
    }
    let third: u64 = timeout / 3;
    Ok(
        AttachmentLiveness {
            timeout_ms: timeout,
            heartbeat_interval_ms: if third < 1 {
                1
            } else {
                third
            },
        },
    )
}

/// Whether a daemon has nothing left to do: it had sessions or is to be
/// restarted, and neither a session nor a connection is left.
pub fn is_finished(
    ever_had_session: bool,
    draining: bool,
    sessions: usize,
    connections: usize,
) -> (finished: bool)
    ensures
        finished == ((ever_had_session || draining) && sessions == 0 && connections == 0),
{
    (ever_had_session || draining) && sessions == 0 && connections == 0
}

/// Whether a daemon that nobody used ends when its startup time runs out.
pub fn startup_expires(sessions: usize, connections: usize) -> (expires: bool)
    ensures
        expires == (sessions == 0 && connections == 0),
{
    sessions == 0 && connections == 0
}

/// Whether a daemon still waits for its first use.
pub fn waits_for_first_use(ever_had_session: bool, draining: bool) -> (waits: bool)
    ensures
        waits == (!ever_had_session && !draining),
{
    !ever_had_session && !draining
}

/// Why an endpoint could not be bound.
#[derive(Debug, PartialEq, Eq)]
pub struct BindFailure {
    /// Whether something stands at the address already.
    pub address_in_use: bool,
    pub message: String,
}

/// What a daemon does to get an endpoint.
#[derive(Debug, PartialEq, Eq)]
pub enum BindStep {
    /// The endpoint is bound: it is closed to other users.
    Secure,
    /// Tries whether another daemon serves the endpoint.
    Probe,
    /// Removes what an earlier daemon left behind, and binds again.
    Replace,
    Fail(DaemonError),
}

/// Goes on after an endpoint was bound. Something that stands there is looked
/// at, but replaced only once.
pub fn after_bind(path: &str, result: Result<(), BindFailure>, replaced: bool) -> (step: BindStep)
    ensures
        match result {
            Ok(_) => step == BindStep::Secure,
            Err(failure) => if failure.address_in_use && !replaced {
                step == BindStep::Probe
            } else {
                step matches BindStep::Fail(DaemonError::Bind { path: at, source }) && at@ == path@
                    && source == failure.message
            },
        },
{
    match result {
        Ok(_) => BindStep::Secure,
        Err(failure) => if failure.address_in_use && !replaced {
            BindStep::Probe
        } else {
            BindStep::Fail(DaemonError::Bind { path: path.to_owned(), source: failure.message })
        },
    }
}

/// Goes on after an endpoint that is in use was tried: a daemon that answers is
/// left alone.
pub fn after_bind_probe(path: &str, answers: bool) -> (step: BindStep)
    ensures
        if answers {
            step matches BindStep::Fail(DaemonError::AlreadyRunning(at)) && at@ == path@
        } else {
            step == BindStep::Replace
        },
{
    if answers {
        BindStep::Fail(DaemonError::AlreadyRunning(path.to_owned()))
    } else {
        BindStep::Replace
    }
}

/// Which file an endpoint is.
#[derive(Debug, Clone, Copy, PartialEq, Eq, Structural)]
pub struct EndpointIdentity {
    pub device: u64,
    pub inode: u64,
}

impl EndpointIdentity {
    /// Whether a daemon that ends removes what stands at its endpoint: only what
    /// it made itself.
    pub fn may_be_removed(&self, standing: Option<EndpointIdentity>) -> (removable: bool)
        ensures
            removable == (standing == Some(*self)),
    {
        match standing {
            Some(standing) => standing.device == self.device && standing.inode == self.inode,
            None => false,
        }
    }
}

/// An error message to a client.
fn error_message(code: ErrorCode, message: &str) -> (reply: ServerMessage)
    ensures
        reply.is_error(code, message@),
{
    ServerMessage::Error { code, message: message.to_owned() }
}

/// What a client is told when its sessions could not be managed.
pub open spec fn manager_code(error: SessionManagerError) -> ErrorCode {
    match error {
        SessionManagerError::InvalidName { .. } => ErrorCode::InvalidSessionName,
        SessionManagerError::AlreadyExists { .. } => ErrorCode::SessionAlreadyExists,
        SessionManagerError::NotFound { .. } => ErrorCode::SessionNotFound,
        SessionManagerError::InvalidView(_) => ErrorCode::InvalidRequest,
        _ => ErrorCode::Internal,
    }
}

pub fn session_manager_error(error: &SessionManagerError) -> (reply: ServerMessage)
    ensures
        reply.is_error(manager_code(*error), error.text()),
{
    let code = match error {
        SessionManagerError::InvalidName { .. } => ErrorCode::InvalidSessionName,
        SessionManagerError::AlreadyExists { .. } => ErrorCode::SessionAlreadyExists,
        SessionManagerError::NotFound { .. } => ErrorCode::SessionNotFound,
        SessionManagerError::InvalidView(_) => ErrorCode::InvalidRequest,
        _ => ErrorCode::Internal,
    };
    ServerMessage::Error { code, message: error.message() }
}

/// What a client is told when it could not control a session.
pub open spec fn control_code(error: SessionControlError) -> ErrorCode {
    match error {
        SessionControlError::InputLeaseRequired => ErrorCode::InputLeaseRequired,
        SessionControlError::LayoutLeaseRequired => ErrorCode::LayoutLeaseRequired,
        SessionControlError::Io(_) => ErrorCode::Internal,
        SessionControlError::Pty(_) => ErrorCode::Internal,
    }
}

pub fn control_error(error: &SessionControlError) -> (reply: ServerMessage)
    ensures
        reply.is_error(control_code(*error), error.text()),
{
    let code = match error {
        SessionControlError::InputLeaseRequired => ErrorCode::InputLeaseRequired,
        SessionControlError::LayoutLeaseRequired => ErrorCode::LayoutLeaseRequired,
        SessionControlError::Io(_) => ErrorCode::Internal,
        SessionControlError::Pty(_) => ErrorCode::Internal,
    };
    ServerMessage::Error { code, message: error.message() }
}

/// Answers the first message of a connection: an acceptance, or the error that
/// ends the connection.
pub fn accept_handshake(
    message: &ClientMessage,
    liveness: AttachmentLiveness,
    server_version: &str,
) -> (result: Result<ServerMessage, ServerMessage>)
    ensures
        match (*message, result) {
            (ClientMessage::Handshake { protocol_version, .. }, Ok(reply)) => {
                &&& protocol_version == PROTOCOL_VERSION
                &&& reply matches ServerMessage::HandshakeAccepted {
                    protocol_version: version,
                    server_version: server,
                    heartbeat_interval_ms,
                    attachment_liveness_timeout_ms,
                } && version == PROTOCOL_VERSION && server@ == server_version@
                    && heartbeat_interval_ms == liveness.heartbeat_interval_ms
                    && attachment_liveness_timeout_ms == liveness.timeout_ms
            },
            (ClientMessage::Handshake { protocol_version, .. }, Err(reply)) => {
                &&& protocol_version != PROTOCOL_VERSION
                &&& reply.is_error(
                    ErrorCode::ProtocolVersionMismatch,
                    "client requested protocol version "@ + decimal(protocol_version as nat)
                        + "; this daemon supports "@ + decimal(PROTOCOL_VERSION as nat),
                )
            },
            (_, Ok(_)) => false,
            (_, Err(reply)) => reply.is_error(
                ErrorCode::InvalidRequest,
                "the first message must be a handshake"@,
            ),
        },
{
    match message {
        ClientMessage::Handshake { protocol_version, .. } => {
            if *protocol_version != PROTOCOL_VERSION {
                let mut text = between(
                    "client requested protocol version ",
                    decimal_text(*protocol_version as u64).as_str(),
                    "; this daemon supports ",
                );
                text.append(decimal_text(PROTOCOL_VERSION as u64).as_str());
                return Err(
                    ServerMessage::Error {
                        code: ErrorCode::ProtocolVersionMismatch,
                        message: text,
                    },
                );
            }
            Ok(
                ServerMessage::HandshakeAccepted {
                    protocol_version: PROTOCOL_VERSION,
                    server_version: server_version.to_owned(),
                    heartbeat_interval_ms: liveness.heartbeat_interval_ms,
                    attachment_liveness_timeout_ms: liveness.timeout_ms,
                },
            )
        },
        _ => Err(error_message(ErrorCode::InvalidRequest, "the first message must be a handshake")),
    }
}

#[derive(Debug, Clone, Copy, PartialEq, Eq, Structural)]
pub enum RestartState {
    Accepting,
    Draining,
}

/// Why a restart was refused or failed.
#[derive(Debug, PartialEq, Eq)]
pub enum RestartCoordinatorError {
    AlreadyDraining,
    SessionCountOverflow,
    Termination(SessionControlError),
}

impl RestartCoordinatorError {
    pub open spec fn text(self) -> Seq<char> {
        match self {
            RestartCoordinatorError::AlreadyDraining =>
                "a cooperative restart is already in progress"@,
            RestartCoordinatorError::SessionCountOverflow =>
                "too many sessions to report a cooperative restart result"@,
            RestartCoordinatorError::Termination(error) =>
                "could not terminate a session during cooperative restart: "@ + error.text(),
        }
    }

    /// The error in words.
    pub fn message(&self) -> (message: String)
        ensures
            message@ == self.text(),
    {
        match self {
            RestartCoordinatorError::AlreadyDraining =>
                "a cooperative restart is already in progress".to_owned(),
            RestartCoordinatorError::SessionCountOverflow =>
                "too many sessions to report a cooperative restart result".to_owned(),
            RestartCoordinatorError::Termination(error) => prefixed(
                "could not terminate a session during cooperative restart: ",
                error.message().as_str(),
            ),
        }
    }
}

/// Gates the daemon's work while it is being restarted.
#[derive(Debug, Clone, Copy, PartialEq, Eq, Structural)]
pub struct RestartCoordinator {
    pub state: RestartState,
    /// Whether every connection is to be closed, but for the one that asked
    /// for the restart. Connections accepted later see it too.
    pub connections_cancelled: bool,
}

impl RestartCoordinator {
    pub fn new() -> (coordinator: Self)
        ensures
            coordinator == (RestartCoordinator {
                state: RestartState::Accepting,
                connections_cancelled: false,
            }),
    {
        RestartCoordinator { state: RestartState::Accepting, connections_cancelled: false }
    }

    pub fn is_draining(&self) -> (draining: bool)
        ensures
            draining == (self.state == RestartState::Draining),
    {
        match self.state {
            RestartState::Accepting => false,
            RestartState::Draining => true,
        }
    }

    /// Stops the admission of new work and names the sessions to end.
    ///
    /// A create either completed before this, and its session is in the list,
    /// or it is refused from now on.
    pub fn begin_cooperative_restart(&mut self, sessions: &SessionManager) -> (result: Result<
        Vec<String>,
        RestartCoordinatorError,
    >)
        requires
            sessions.wf(),
        ensures
            final(self).connections_cancelled == old(self).connections_cancelled,
            match result {
                Ok(targets) => {
                    &&& old(self).state == RestartState::Accepting
                    &&& final(self).state == RestartState::Draining
                    &&& targets@.len() == sessions.sessions().dom().len()
                    &&& targets@.len() <= u32::MAX
                    &&& crate::text::texts(targets@).no_duplicates()
                    &&& forall|id: Seq<char>| #[trigger]
                        crate::text::texts(targets@).contains(id)
                            <==> sessions.sessions().dom().contains(id)
                },
                Err(RestartCoordinatorError::AlreadyDraining) => {
                    &&& old(self).state == RestartState::Draining
                    &&& *final(self) == *old(self)
                },
                Err(RestartCoordinatorError::SessionCountOverflow) => {
                    &&& old(self).state == RestartState::Accepting
                    &&& sessions.sessions().dom().len() > u32::MAX
                    &&& *final(self) == *old(self)
                },
                Err(_) => false,
            },
    {
        if self.is_draining() {
            return Err(RestartCoordinatorError::AlreadyDraining);
        }
        let targets = sessions.snapshot_for_cooperative_restart();
        if targets.len() as u64 > u32::MAX as u64 {
            return Err(RestartCoordinatorError::SessionCountOverflow);
        }
        self.state = RestartState::Draining;
        Ok(targets)
    }

    /// Takes in how ending the sessions went.
    ///
    /// A failed termination cannot be undone, but a daemon that stayed closed
    /// would strand its healthy sessions: it admits work again.
    pub fn finish_termination(
        &mut self,
        target_count: usize,
        failure: Option<SessionControlError>,
    ) -> (result: Result<u32, RestartCoordinatorError>)
        requires
            old(self).state == RestartState::Draining,
            target_count <= u32::MAX,
        ensures
            final(self).connections_cancelled == old(self).connections_cancelled,
            match failure {
                None => {
                    &&& result == Ok::<u32, RestartCoordinatorError>(target_count as u32)
                    &&& final(self).state == RestartState::Draining
                },
                Some(error) => {
                    &&& result == Err::<u32, _>(RestartCoordinatorError::Termination(error))
                    &&& final(self).state == RestartState::Accepting
                },
            },
    {
        match failure {
            None => Ok(target_count as u32),
            Some(error) => {
                self.state = RestartState::Accepting;
                Err(RestartCoordinatorError::Termination(error))
            },
        }
    }

    /// Closes every connection but the one that was just answered.
    pub fn cancel_other_connections(&mut self)
        ensures
            *final(self) == (RestartCoordinator { connections_cancelled: true, ..*old(self) }),
    {
        self.connections_cancelled = true;
    }
}

/// How far a local-control connection has come.
#[derive(Debug, Clone, Copy, PartialEq, Eq, Structural)]
pub enum LocalControlStage {
    AwaitingHandshake,
    Armed,
    Closed,
}

/// What the daemon does after a local-control message.
#[derive(Debug, PartialEq, Eq)]
pub enum LocalControlAction {
    /// Sends an answer and waits for the next message.
    Reply(LocalControlServerMessage),
    /// Sends an answer and closes the connection.
    Finish(LocalControlServerMessage),
    /// Ends these sessions, and goes on with [`restart_reply`].
    Terminate(Vec<String>),
}

fn local_control_error(code: LocalControlErrorCode, message: &str) -> (action: LocalControlAction)
    ensures
        action matches LocalControlAction::Finish(reply) && reply.is_error(code, message@),
{
    LocalControlAction::Finish(
        LocalControlServerMessage::Error { code, message: message.to_owned() },
    )
}

impl LocalControlStage {
    /// How long the next message may take, in milliseconds.
    pub fn timeout(&self) -> (timeout: u64)
        ensures
            timeout == match *self {
                LocalControlStage::AwaitingHandshake => LOCAL_CONTROL_HANDSHAKE_TIMEOUT,
                _ => LOCAL_CONTROL_ARMED_REQUEST_TIMEOUT,
            },
    {
        match self {
            LocalControlStage::AwaitingHandshake => LOCAL_CONTROL_HANDSHAKE_TIMEOUT,
            LocalControlStage::Armed => LOCAL_CONTROL_ARMED_REQUEST_TIMEOUT,
            LocalControlStage::Closed => LOCAL_CONTROL_ARMED_REQUEST_TIMEOUT,
        }
    }

    /// Takes in a message. A restart needs a handshake before it, and only one
    /// request is taken.
    pub fn receive(
        &mut self,
        message: LocalControlClientMessage,
        restart: &mut RestartCoordinator,
        sessions: &SessionManager,
    ) -> (action: LocalControlAction)
        requires
            sessions.wf(),
            *old(self) != LocalControlStage::Closed,
        ensures
            final(restart).connections_cancelled == old(restart).connections_cancelled,
            match (*old(self), message) {
                (
                    LocalControlStage::AwaitingHandshake,
                    LocalControlClientMessage::Handshake { protocol_version },
                ) => {
                    &&& *final(restart) == *old(restart)
                    &&& if protocol_version == LOCAL_CONTROL_PROTOCOL_VERSION {
                        &&& action == LocalControlAction::Reply(
                            LocalControlServerMessage::HandshakeAccepted {
                                protocol_version: LOCAL_CONTROL_PROTOCOL_VERSION,
                                restart_supported: true,
                            },
                        )
                        &&& *final(self) == LocalControlStage::Armed
                    } else {
                        &&& action matches LocalControlAction::Finish(reply) && reply.is_error(
                            LocalControlErrorCode::ProtocolVersionMismatch,
                            "local-control client requested version "@ + decimal(
                                protocol_version as nat,
                            ) + "; this daemon supports "@ + decimal(
                                LOCAL_CONTROL_PROTOCOL_VERSION as nat,
                            ),
                        )
                        &&& *final(self) == LocalControlStage::Closed
                    }
                },
                (LocalControlStage::AwaitingHandshake, LocalControlClientMessage::RestartDaemon) => {
                    &&& *final(restart) == *old(restart)
                    &&& *final(self) == LocalControlStage::Closed
                    &&& action matches LocalControlAction::Finish(reply) && reply.is_error(
                        LocalControlErrorCode::InvalidRequest,
                        "the first local-control message must be a handshake"@,
                    )
                },
                (_, LocalControlClientMessage::Handshake { .. }) => {
                    &&& *final(restart) == *old(restart)
                    &&& *final(self) == LocalControlStage::Closed
                    &&& action matches LocalControlAction::Finish(reply) && reply.is_error(
                        LocalControlErrorCode::InvalidRequest,
                        "only restart_daemon is valid after the local-control handshake"@,
                    )
                },
                (_, LocalControlClientMessage::RestartDaemon) => {
                    &&& *final(self) == LocalControlStage::Closed
                    &&& if old(restart).state == RestartState::Draining {
                        &&& *final(restart) == *old(restart)
                        &&& action matches LocalControlAction::Finish(reply) && reply.is_error(
                            LocalControlErrorCode::RestartInProgress,
                            "rmuxd is already draining for a cooperative restart"@,
                        )
                    } else if sessions.sessions().dom().len() > u32::MAX {
                        &&& *final(restart) == *old(restart)
                        &&& action matches LocalControlAction::Finish(reply) && reply.is_error(
                            LocalControlErrorCode::Internal,
                            "too many sessions to report a cooperative restart result"@,
                        )
                    } else {
                        &&& final(restart).state == RestartState::Draining
                        &&& action matches LocalControlAction::Terminate(targets) && {
                            &&& targets@.len() == sessions.sessions().dom().len()
                            &&& targets@.len() <= u32::MAX
                            &&& crate::text::texts(targets@).no_duplicates()
                            &&& forall|id: Seq<char>| #[trigger]
                                crate::text::texts(targets@).contains(id)
                                    <==> sessions.sessions().dom().contains(id)
                        }
                    }
                },
            },
    {
        let awaiting = match self {
            LocalControlStage::AwaitingHandshake => true,
            _ => false,
        };
        *self = LocalControlStage::Closed;
        match message {
            LocalControlClientMessage::Handshake { protocol_version } => {
                if !awaiting {
                    return local_control_error(
                        LocalControlErrorCode::InvalidRequest,
                        "only restart_daemon is valid after the local-control handshake",
                    );
                }
                if protocol_version != LOCAL_CONTROL_PROTOCOL_VERSION {
                    let mut text = between(
                        "local-control client requested version ",
                        decimal_text(protocol_version as u64).as_str(),
                        "; this daemon supports ",
                    );
                    text.append(decimal_text(LOCAL_CONTROL_PROTOCOL_VERSION as u64).as_str());
                    return local_control_error(
                        LocalControlErrorCode::ProtocolVersionMismatch,
                        text.as_str(),
                    );
                }
                *self = LocalControlStage::Armed;
                LocalControlAction::Reply(
                    LocalControlServerMessage::HandshakeAccepted {
                        protocol_version: LOCAL_CONTROL_PROTOCOL_VERSION,
                        restart_supported: true,
                    },
                )
            },
            LocalControlClientMessage::RestartDaemon => {
                if awaiting {
                    return local_control_error(
                        LocalControlErrorCode::InvalidRequest,
                        "the first local-control message must be a handshake",
                    );
                }
                match restart.begin_cooperative_restart(sessions) {
                    Ok(targets) => LocalControlAction::Terminate(targets),
                    Err(error) => match error {
                        RestartCoordinatorError::AlreadyDraining => local_control_error(
                            LocalControlErrorCode::RestartInProgress,
                            "rmuxd is already draining for a cooperative restart",
                        ),
                        RestartCoordinatorError::SessionCountOverflow => local_control_error(
                            LocalControlErrorCode::Internal,
                            error.message().as_str(),
                        ),
                        RestartCoordinatorError::Termination(_) => local_control_error(
                            LocalControlErrorCode::Internal,
                            error.message().as_str(),
                        ),
                    },
                }
            },
        }
    }
}

/// The answer after the sessions of a restart were told to end.
///
/// When it is an acceptance, every other connection is cancelled once it was
/// sent, whether or not it arrived.
pub fn restart_reply(
    restart: &mut RestartCoordinator,
    target_count: usize,
    failure: Option<SessionControlError>,
) -> (reply: LocalControlServerMessage)
    requires
        old(restart).state == RestartState::Draining,
        target_count <= u32::MAX,
    ensures
        final(restart).connections_cancelled == old(restart).connections_cancelled,
        match failure {
            None => {
                &&& reply == (LocalControlServerMessage::RestartAccepted {
                    terminated_sessions: target_count as u32,
                })
                &&& final(restart).state == RestartState::Draining
            },
            Some(error) => {
                &&& reply.is_error(
                    LocalControlErrorCode::Internal,
                    "could not terminate a session during cooperative restart: "@ + error.text(),
                )
                &&& final(restart).state == RestartState::Accepting
            },
        },
{
    match restart.finish_termination(target_count, failure) {
        Ok(terminated_sessions) => LocalControlServerMessage::RestartAccepted {
            terminated_sessions,
        },
        Err(error) => LocalControlServerMessage::Error {
            code: LocalControlErrorCode::Internal,
            message: error.message(),
        },
    }
}

/// A client learns from the code what went wrong: each kind of refusal has a
/// code of its own, and what the client cannot help is internal.
pub proof fn refusals_are_told_apart(manager: SessionManagerError, control: SessionControlError)
    ensures
        manager_code(manager) == ErrorCode::SessionNotFound <==> manager is NotFound,
        manager_code(manager) == ErrorCode::SessionAlreadyExists <==> manager is AlreadyExists,
        manager_code(manager) == ErrorCode::InvalidSessionName <==> manager is InvalidName,
        manager_code(manager) == ErrorCode::InvalidRequest <==> manager is InvalidView,
        control_code(control) == ErrorCode::InputLeaseRequired <==> control is InputLeaseRequired,
        control_code(control) == ErrorCode::LayoutLeaseRequired <==> control
            is LayoutLeaseRequired,
        control is Io || control is Pty ==> control_code(control) == ErrorCode::Internal,
{
}

} // verus!
