//! How the graphical client replaces the local daemon.
//!
//! Before it gives up its own view, the client makes sure that the running
//! daemon can be restarted at all; until then nothing is lost by a failure.
use vstd::prelude::*;
use vstd::string::*;

use crate::dto::CommandErrorDto;
use crate::ipc::{
    ConnectError, EndpointDrainError, LocalControlCapabilities, LocalControlClientError,
    LocalControlErrorCode,
};
use crate::text::{between, prefixed};

verus! {

/// How long a local-control answer may take, in milliseconds.
pub const DAEMON_RESTART_REQUEST_TIMEOUT: u64 = 3_000;

/// How long a daemon may take to end its sessions and go, in milliseconds.
pub const DAEMON_RESTART_DRAIN_TIMEOUT: u64 = 15_000;

/// Details returned after a local daemon has been replaced.
#[derive(Debug, Clone, Copy, PartialEq, Eq, Structural)]
pub struct RestartLocalDaemonOutcome {
    pub terminated_sessions: u32,
}

/// Result of a non-destructive local restart capability probe.
#[derive(Debug, PartialEq, Eq)]
pub enum RestartDaemonPreflight {
    /// A connection is ready to ask for the restart.
    Supported,
    DaemonAbsent,
}

impl RestartDaemonPreflight {
    /// Whether the client's own attachment has to end first.
    pub fn requires_attachment_detach(&self) -> (requires: bool)
        ensures
            requires == (*self == RestartDaemonPreflight::Supported),
    {
        match self {
            RestartDaemonPreflight::Supported => true,
            RestartDaemonPreflight::DaemonAbsent => false,
        }
    }
}

/// Where a probe goes on.
#[derive(Debug, PartialEq, Eq)]
pub enum PreflightStep {
    /// Shakes hands over the control connection.
    Handshake,
    /// Looks whether anything serves the data endpoint.
    ProbeData,
    Done(RestartDaemonPreflight),
    Fail(CommandErrorDto),
}

impl PreflightStep {
    /// Whether the probe failed, which changed nothing.
    pub open spec fn is_unsupported(self, message: Seq<char>) -> bool {
        self matches PreflightStep::Fail(error) && error.says(
            "daemon_restart_unsupported"@,
            message,
        )
    }
}

/// What is told when a probe fails.
pub open spec fn preflight_words(error: Seq<char>) -> Seq<char> {
    "the running rmuxd cannot safely perform cooperative restart: "@ + error
}

pub fn restart_unsupported(message: &str) -> (error: CommandErrorDto)
    ensures
        error.says("daemon_restart_unsupported"@, message@),
{
    CommandErrorDto::new("daemon_restart_unsupported", message)
}

/// A probe failed: nothing was changed, so a restart is merely not available.
pub fn restart_preflight_failure(error: &str) -> (result: CommandErrorDto)
    ensures
        result.says("daemon_restart_unsupported"@, preflight_words(error@)),
{
    restart_unsupported(
        prefixed(
            "the running rmuxd cannot safely perform cooperative restart: ",
            error,
        ).as_str(),
    )
}

pub fn preflight_local_control_error(error: &LocalControlClientError) -> (result: CommandErrorDto)
    ensures
        result.says("daemon_restart_unsupported"@, preflight_words(error.text())),
{
    restart_preflight_failure(error.message().as_str())
}

/// Goes on after the control endpoint was tried.
pub fn after_control_connect(result: Result<(), ConnectError>) -> (step: PreflightStep)
    ensures
        match result {
            Ok(_) => step == PreflightStep::Handshake,
            Err(error) => if error is Connect && error->Connect_0.means_absent() {
                step == PreflightStep::ProbeData
            } else {
                step.is_unsupported(preflight_words(error.text()))
            },
        },
{
    match result {
        Ok(_) => PreflightStep::Handshake,
        Err(error) => if error.is_endpoint_unavailable() {
            PreflightStep::ProbeData
        } else {
            PreflightStep::Fail(restart_preflight_failure(error.message().as_str()))
        },
    }
}

/// Goes on after the handshake; `None` stands for an answer that did not come
/// in time.
pub fn after_preflight_handshake(
    result: Option<Result<LocalControlCapabilities, LocalControlClientError>>,
) -> (step: PreflightStep)
    ensures
        match result {
            None => step.is_unsupported(
                "the running rmuxd did not complete the owner-only local-control handshake; restart it manually to upgrade"@,
            ),
            Some(Err(error)) => step.is_unsupported(preflight_words(error.text())),
            Some(Ok(capabilities)) => if capabilities.restart_supported {
                step == PreflightStep::Done(RestartDaemonPreflight::Supported)
            } else {
                step.is_unsupported(
                    "the running rmuxd does not advertise cooperative restart support"@,
                )
            },
        },
{
    match result {
        None => PreflightStep::Fail(
            restart_unsupported(
                "the running rmuxd did not complete the owner-only local-control handshake; restart it manually to upgrade",
            ),
        ),
        Some(Err(error)) => PreflightStep::Fail(preflight_local_control_error(&error)),
        Some(Ok(capabilities)) => if capabilities.restart_supported {
            PreflightStep::Done(RestartDaemonPreflight::Supported)
        } else {
            PreflightStep::Fail(
                restart_unsupported(
                    "the running rmuxd does not advertise cooperative restart support",
                ),
            )
        },
    }
}

/// Goes on after the data endpoint was tried, while the control endpoint is
/// absent: a daemon without one cannot be restarted.
pub fn after_data_connect(result: Result<(), ConnectError>) -> (step: PreflightStep)
    ensures
        match result {
            Ok(_) => step.is_unsupported(
                "the running rmuxd has no owner-only local-control endpoint; restart it manually to upgrade"@,
            ),
            Err(error) => if error is Connect && error->Connect_0.means_absent() {
                step == PreflightStep::Done(RestartDaemonPreflight::DaemonAbsent)
            } else {
                step.is_unsupported(preflight_words(error.text()))
            },
        },
{
    match result {
        Ok(_) => PreflightStep::Fail(
            restart_unsupported(
                "the running rmuxd has no owner-only local-control endpoint; restart it manually to upgrade",
            ),
        ),
        Err(error) => if error.is_endpoint_unavailable() {
            PreflightStep::Done(RestartDaemonPreflight::DaemonAbsent)
        } else {
            PreflightStep::Fail(restart_preflight_failure(error.message().as_str()))
        },
    }
}

pub open spec fn local_control_code_words(code: LocalControlErrorCode) -> Seq<char> {
    match code {
        LocalControlErrorCode::InvalidRequest => "local_control_invalid_request"@,
        LocalControlErrorCode::ProtocolVersionMismatch =>
            "local_control_protocol_version_mismatch"@,
        LocalControlErrorCode::RestartUnsupported => "daemon_restart_unsupported"@,
        LocalControlErrorCode::RestartInProgress => "daemon_restart_in_progress"@,
        LocalControlErrorCode::Internal => "local_control_internal"@,
    }
}

/// The stable name of a local-control error.
pub fn local_control_error_code(code: LocalControlErrorCode) -> (name: &'static str)
    ensures
        name@ == local_control_code_words(code),
{
    match code {
        LocalControlErrorCode::InvalidRequest => "local_control_invalid_request",
        LocalControlErrorCode::ProtocolVersionMismatch => "local_control_protocol_version_mismatch",
        LocalControlErrorCode::RestartUnsupported => "daemon_restart_unsupported",
        LocalControlErrorCode::RestartInProgress => "daemon_restart_in_progress",
        LocalControlErrorCode::Internal => "local_control_internal",
    }
}

/// What is told of a local-control error.
pub open spec fn control_failure(error: LocalControlClientError) -> (Seq<char>, Seq<char>) {
    match error {
        LocalControlClientError::RestartUnsupported => (
            "daemon_restart_unsupported"@,
            "the running rmuxd does not support cooperative restart; restart it manually to upgrade"@,
        ),
        LocalControlClientError::Server { code, message } => (
            local_control_code_words(code),
            message@,
        ),
        _ => ("backend_error"@, error.text()),
    }
}

pub fn local_control_error(error: LocalControlClientError) -> (result: CommandErrorDto)
    ensures
        result.says(control_failure(error).0, control_failure(error).1),
{
    match error {
        LocalControlClientError::RestartUnsupported => restart_unsupported(
            "the running rmuxd does not support cooperative restart; restart it manually to upgrade",
        ),
        LocalControlClientError::Server { code, message } => CommandErrorDto::new(
            local_control_error_code(code),
            message.as_str(),
        ),
        error => CommandErrorDto::backend(error.message().as_str()),
    }
}

/// What is told when a restart fails after the client gave up its view.
pub open spec fn transition_words(code: Seq<char>, message: Seq<char>) -> Seq<char> {
    "cooperative restart was armed after this window detached, but it could not continue ("@ + code
        + "): "@ + message
}

/// A restart failed after the client gave up its view.
pub fn restart_transition_error(error: CommandErrorDto) -> (result: CommandErrorDto)
    ensures
        result.says(
            "daemon_restart_transition_failed"@,
            transition_words(error.code@, error.message@),
        ),
{
    let mut message = between(
        "cooperative restart was armed after this window detached, but it could not continue (",
        error.code.as_str(),
        "): ",
    );
    message.append(error.message.as_str());
    CommandErrorDto::new("daemon_restart_transition_failed", message.as_str())
}

/// How many sessions the restart ends; `None` stands for an answer that did not
/// come in time.
pub fn restart_requested(result: Option<Result<u32, LocalControlClientError>>) -> (outcome: Result<
    u32,
    CommandErrorDto,
>)
    ensures
        match result {
            Some(Ok(count)) => outcome == Ok::<u32, CommandErrorDto>(count),
            Some(Err(error)) => outcome is Err && outcome->Err_0.says(
                "daemon_restart_transition_failed"@,
                transition_words(control_failure(error).0, control_failure(error).1),
            ),
            None => outcome is Err && outcome->Err_0.says(
                "daemon_restart_transition_failed"@,
                transition_words(
                    "daemon_restart_request_timeout"@,
                    "rmuxd did not respond to the cooperative restart request within three seconds"@,
                ),
            ),
        },
{
    match result {
        Some(Ok(count)) => Ok(count),
        Some(Err(error)) => Err(restart_transition_error(local_control_error(error))),
        None => Err(
            restart_transition_error(
                CommandErrorDto::new(
                    "daemon_restart_request_timeout",
                    "rmuxd did not respond to the cooperative restart request within three seconds",
                ),
            ),
        ),
    }
}

/// The old daemon did not go.
pub fn drain_failed(error: &EndpointDrainError) -> (result: CommandErrorDto)
    ensures
        result.says(
            "daemon_restart_drain_failed"@,
            "rmuxd did not stop cleanly: "@ + error.text() + ". It was not forcibly restarted."@,
        ),
{
    CommandErrorDto::new(
        "daemon_restart_drain_failed",
        between(
            "rmuxd did not stop cleanly: ",
            error.message().as_str(),
            ". It was not forcibly restarted.",
        ).as_str(),
    )
}

/// The outcome once the new daemon was asked what it offers; `None` stands for
/// an answer that did not come in time. The new daemon has to be one that can
/// be restarted again.
pub fn replacement_checked(
    terminated_sessions: u32,
    result: Option<Result<LocalControlCapabilities, LocalControlClientError>>,
) -> (outcome: Result<RestartLocalDaemonOutcome, CommandErrorDto>)
    ensures
        match result {
            Some(Ok(capabilities)) => if capabilities.restart_supported {
                outcome == Ok::<_, CommandErrorDto>(
                    RestartLocalDaemonOutcome { terminated_sessions },
                )
            } else {
                outcome is Err && outcome->Err_0.says(
                    "daemon_restart_transition_failed"@,
                    transition_words(
                        "daemon_restart_unsupported"@,
                        "the replacement rmuxd does not advertise cooperative restart support"@,
                    ),
                )
            },
            Some(Err(error)) => outcome is Err && outcome->Err_0.says(
                "daemon_restart_transition_failed"@,
                transition_words(control_failure(error).0, control_failure(error).1),
            ),
            None => outcome is Err && outcome->Err_0.says(
                "daemon_restart_transition_failed"@,
                transition_words(
                    "daemon_restart_request_timeout"@,
                    "rmuxd did not respond to the local-control handshake within three seconds"@,
                ),
            ),
        },
{
    match result {
        Some(Ok(capabilities)) => if capabilities.restart_supported {
            Ok(RestartLocalDaemonOutcome { terminated_sessions })
        } else {
            Err(
                restart_transition_error(
                    restart_unsupported(
                        "the replacement rmuxd does not advertise cooperative restart support",
                    ),
                ),
            )
        },
        Some(Err(error)) => Err(restart_transition_error(local_control_error(error))),
        None => Err(
            restart_transition_error(
                CommandErrorDto::new(
                    "daemon_restart_request_timeout",
                    "rmuxd did not respond to the local-control handshake within three seconds",
                ),
            ),
        ),
    }
}

/// What is known of the user's home directory.
#[derive(Debug, PartialEq, Eq)]
pub enum HomeDirectory {
    Unknown,
    NotText,
    Known(String),
}

/// The directory in which a session starts unless the user names one.
pub fn default_working_directory(home: HomeDirectory) -> (result: Result<String, CommandErrorDto>)
    ensures
        match home {
            HomeDirectory::Known(directory) => result == Ok::<String, CommandErrorDto>(directory),
            HomeDirectory::Unknown => result is Err && result->Err_0.says(
                "home_directory_unavailable"@,
                "enter a working directory because the user home directory is unavailable"@,
            ),
            HomeDirectory::NotText => result is Err && result->Err_0.says(
                "home_directory_not_utf8"@,
                "enter a working directory because the user home directory is not valid UTF-8"@,
            ),
        },
{
    match home {
        HomeDirectory::Known(directory) => Ok(directory),
        HomeDirectory::Unknown => Err(
            CommandErrorDto::new(
                "home_directory_unavailable",
                "enter a working directory because the user home directory is unavailable",
            ),
        ),
        HomeDirectory::NotText => Err(
            CommandErrorDto::new(
                "home_directory_not_utf8",
                "enter a working directory because the user home directory is not valid UTF-8",
            ),
        ),
    }
}

} // verus!
