//! The local endpoints of the daemon: where they are, how they are reached and
//! the owner-only protocol that maintains the daemon.
use vstd::prelude::*;
use vstd::string::*;

use crate::ids::name_based_id;
use crate::text::{between, chars_of, decimal, decimal_text, duration_text, duration_words, prefixed};

verus! {

/// How long a client tries to reach a daemon that it started.
pub const CONNECT_TIMEOUT_MS: u64 = 3_000;

pub const CONNECT_RETRY_INTERVAL_MS: u64 = 25;

/// The largest payload of a local-control frame.
pub const MAX_LOCAL_CONTROL_FRAME_SIZE: usize = 65_536;

/// Version of the owner-only local control endpoint.
///
/// It is separate from the session protocol: that one may be relayed to other
/// machines, while daemon-global maintenance stays local.
pub const LOCAL_CONTROL_PROTOCOL_VERSION: u16 = 1;

/// A path without what does not name anything at its end: separators, and
/// single dots after a separator.
pub open spec fn trimmed(path: Seq<char>) -> Seq<char>
    decreases path.len(),
{
    if path.len() > 0 && path.last() == '/' {
        trimmed(path.drop_last())
    } else if path.len() >= 2 && path.last() == '.' && path[path.len() - 2] == '/' {
        trimmed(path.drop_last())
    } else {
        path
    }
}

/// Where the name after the last separator starts.
pub open spec fn name_start(path: Seq<char>) -> int
    decreases path.len(),
{
    if path.len() == 0 || path.last() == '/' {
        path.len() as int
    } else {
        name_start(path.drop_last())
    }
}

/// The last component of a path, if it names something.
pub open spec fn file_name(path: Seq<char>) -> Option<Seq<char>> {
    let whole = trimmed(path);
    let name = whole.skip(name_start(whole));
    if name.len() == 0 || name == seq!['.'] || name == seq!['.', '.'] {
        None
    } else {
        Some(name)
    }
}

/// A name inside a directory.
pub open spec fn inside(directory: Seq<char>, name: Seq<char>) -> Seq<char> {
    if directory.len() == 0 || directory.last() == '/' {
        directory + name
    } else {
        directory.push('/') + name
    }
}

/// A name in the directory that holds a path.
pub open spec fn beside(path: Seq<char>, name: Seq<char>) -> Seq<char> {
    let whole = trimmed(path);
    if file_name(path) is Some {
        whole.take(name_start(whole)) + name
    } else {
        inside(path, name)
    }
}

proof fn name_start_bounds(path: Seq<char>)
    ensures
        0 <= name_start(path) <= path.len(),
    decreases path.len(),
{
    if path.len() > 0 && path.last() != '/' {
        name_start_bounds(path.drop_last());
    }
}

/// How many characters remain when the end is trimmed.
fn trimmed_length(chars: &Vec<char>) -> (length: usize)
    ensures
        length <= chars@.len(),
        chars@.take(length as int) == trimmed(chars@),
{
    let mut length: usize = chars.len();
    assert(chars@.take(length as int) =~= chars@);
    while length > 0 && (chars[length - 1] == '/' || (length >= 2 && chars[length - 1] == '.'
        && chars[length - 2] == '/'))
        invariant
            length <= chars@.len(),
            trimmed(chars@.take(length as int)) == trimmed(chars@),
        decreases length,
    {
        proof {
            let now = chars@.take(length as int);
            assert(now.drop_last() =~= chars@.take(length - 1));
            assert(now.last() == chars@[length - 1]);
            if length >= 2 {
                assert(now[length - 2] == chars@[length - 2]);
            }
        }
        length -= 1;
    }
    proof {
        let now = chars@.take(length as int);
        if length > 0 {
            assert(now.last() == chars@[length - 1]);
        }
        if length >= 2 {
            assert(now[length - 2] == chars@[length - 2]);
        }
    }
    length
}

/// Where the last name of the first `length` characters starts.
fn last_name_start(chars: &Vec<char>, length: usize) -> (start: usize)
    requires
        length <= chars@.len(),
    ensures
        start <= length,
        start == name_start(chars@.take(length as int)),
{
    let mut start: usize = length;
    while start > 0 && chars[start - 1] != '/'
        invariant
            start <= length,
            length <= chars@.len(),
            name_start(chars@.take(start as int)) == name_start(chars@.take(length as int)),
        decreases start,
    {
        proof {
            let now = chars@.take(start as int);
            assert(now.drop_last() =~= chars@.take(start - 1));
            assert(now.last() == chars@[start - 1]);
        }
        start -= 1;
    }
    proof {
        let now = chars@.take(start as int);
        if start > 0 {
            assert(now.last() == chars@[start - 1]);
        }
    }
    start
}

/// The characters from one position up to another.
fn text_between(chars: &Vec<char>, from: usize, to: usize) -> (text: String)
    requires
        from <= to <= chars@.len(),
    ensures
        text@ == chars@.subrange(from as int, to as int),
{
    proof {
        reveal_strlit("");
    }
    let mut text = "".to_owned();
    let mut index: usize = from;
    assert(text@ =~= chars@.subrange(from as int, from as int));
    while index < to
        invariant
            from <= index <= to <= chars@.len(),
            text@ == chars@.subrange(from as int, index as int),
        decreases to - index,
    {
        text.push(chars[index]);
        index += 1;
        assert(text@ =~= chars@.subrange(from as int, index as int));
    }
    text
}

/// Splits a path before its last name: the length of the trimmed path and
/// where the name starts. There is none when the path names nothing.
fn last_name(chars: &Vec<char>) -> (found: Option<(usize, usize)>)
    ensures
        match found {
            Some((start, end)) => {
                &&& start <= end <= chars@.len()
                &&& chars@.take(end as int) == trimmed(chars@)
                &&& start == name_start(trimmed(chars@))
                &&& file_name(chars@) is Some
            },
            None => file_name(chars@) is None,
        },
{
    let end: usize = trimmed_length(chars);
    let start: usize = last_name_start(chars, end);
    let ghost name = trimmed(chars@).skip(start as int);
    if start == end {
        return None;
    }
    if end - start == 1 && chars[start] == '.' {
        assert(name =~= seq!['.']);
        return None;
    }
    if end - start == 2 && chars[start] == '.' && chars[start + 1] == '.' {
        assert(name =~= seq!['.', '.']);
        return None;
    }
    proof {
        assert(name.len() == end - start);
        assert(name[0] == chars@[start as int]);
        if end - start == 2 {
            assert(name[1] == chars@[start + 1]);
            if name == seq!['.', '.'] {
                assert(name[0] == '.' && name[1] == '.');
            }
        }
        if name == seq!['.'] {
            assert(name[0] == '.');
        }
    }
    Some((start, end))
}

/// A name inside a directory.
pub fn join_path(directory: &str, name: &str) -> (path: String)
    ensures
        path@ == inside(directory@, name@),
{
    let chars = chars_of(directory);
    let mut path = directory.to_owned();
    if chars.len() > 0 && chars[chars.len() - 1] != '/' {
        path.push('/');
    }
    path.append(name);
    path
}

/// The directory that holds the endpoints: the chosen one, or one in the
/// session's runtime directory, or else one that is named after the user.
pub fn runtime_directory(
    configured: Option<String>,
    session_runtime: Option<String>,
    user_id: u32,
) -> (directory: String)
    ensures
        directory@ == match (configured, session_runtime) {
            (Some(directory), _) => directory@,
            (None, Some(runtime)) => inside(runtime@, "rmux"@),
            (None, None) => "/tmp/rmux-"@ + decimal(user_id as nat),
        },
{
    match configured {
        Some(directory) => directory,
        None => match session_runtime {
            Some(runtime) => join_path(runtime.as_str(), "rmux"),
            None => {
                let mut directory = "/tmp/rmux-".to_owned();
                directory.append(decimal_text(user_id as u64).as_str());
                directory
            },
        },
    }
}

/// The data endpoint in a runtime directory.
pub fn socket_path(runtime_directory: &str) -> (path: String)
    ensures
        path@ == inside(runtime_directory@, "rmux.sock"@),
{
    join_path(runtime_directory, "rmux.sock")
}

/// The bytes of 16-bit units, the less significant byte of each first.
pub open spec fn unit_bytes(units: Seq<u16>) -> Seq<u8>
    decreases units.len(),
{
    if units.len() == 0 {
        Seq::empty()
    } else {
        unit_bytes(units.drop_last()).push((units.last() % 256) as u8).push(
            (units.last() / 256) as u8,
        )
    }
}

/// The named pipe that stands for a runtime directory where there are no
/// sockets in the file system; the directory is given in 16-bit units.
pub fn pipe_path(directory: &Vec<u16>) -> (path: String)
    ensures
        path@ == "\\\\.\\pipe\\ctl-rmuxd-"@ + crate::ids::object_identifier(
            unit_bytes(directory@),
        ),
{
    let mut bytes: Vec<u8> = Vec::new();
    let mut index: usize = 0;
    assert(directory@.take(0) =~= Seq::empty());
    assert(bytes@ =~= unit_bytes(directory@.take(0)));
    while index < directory.len()
        invariant
            index <= directory@.len(),
            bytes@ == unit_bytes(directory@.take(index as int)),
        decreases directory@.len() - index,
    {
        let unit: u16 = directory[index];
        bytes.push((unit % 256) as u8);
        bytes.push((unit / 256) as u8);
        proof {
            let taken = directory@.take(index + 1);
            assert(taken.drop_last() =~= directory@.take(index as int));
            assert(taken.last() == unit);
        }
        index += 1;
    }
    assert(directory@.take(index as int) =~= directory@);
    prefixed("\\\\.\\pipe\\ctl-rmuxd-", name_based_id(bytes.as_slice()).as_str())
}

/// Returns the owner-only local-control endpoint associated with a data
/// endpoint.
///
/// Deriving the path from the selected data endpoint keeps custom endpoints
/// isolated from one another while the control endpoint shares the same
/// runtime directory. A path that names nothing is refused.
pub fn control_socket_path(socket_path: &str) -> (result: Result<String, IoFailure>)
    ensures
        match result {
            Ok(path) => file_name(socket_path@) is Some && path@ == trimmed(socket_path@)
                + ".control"@,
            Err(error) => file_name(socket_path@) is None && error.tells(
                IoFailureKind::InvalidInput,
                "rmux data endpoint "@ + socket_path@ + " has no final path component"@,
            ),
        },
{
    let chars = chars_of(socket_path);
    match last_name(&chars) {
        Some((_start, end)) => {
            let mut path = text_between(&chars, 0, end);
            assert(path@ =~= trimmed(socket_path@));
            path.append(".control");
            Ok(path)
        },
        None => {
            let mut message = "rmux data endpoint ".to_owned();
            message.append(socket_path);
            message.append(" has no final path component");
            Err(IoFailure { kind: IoFailureKind::InvalidInput, message })
        },
    }
}

/// The control endpoint stands in the directory of the data endpoint, and two
/// data endpoints that name different things have different control endpoints.
pub proof fn control_endpoints_are_apart(a: Seq<char>, b: Seq<char>)
    ensures
        trimmed(a) + ".control"@ == trimmed(b) + ".control"@ ==> trimmed(a) == trimmed(b),
        name_start(trimmed(a) + ".control"@) == name_start(trimmed(a)),
{
    reveal_strlit(".control");
    let ending = ".control"@;
    assert forall|t: Seq<char>| #[trigger] (t + ending).take(t.len() as int) == t by {
        assert((t + ending).take(t.len() as int) =~= t);
    }
    if trimmed(a) + ending == trimmed(b) + ending {
        assert((trimmed(a) + ending).len() == (trimmed(b) + ending).len());
        assert(trimmed(a) =~= (trimmed(b) + ending).take(trimmed(a).len() as int));
    }
    no_separator_added(trimmed(a), ending);
}

proof fn no_separator_added(path: Seq<char>, ending: Seq<char>)
    requires
        forall|i: int| 0 <= i < ending.len() ==> ending[i] != '/',
    ensures
        name_start(path + ending) == name_start(path),
    decreases ending.len(),
{
    if ending.len() == 0 {
        assert(path + ending =~= path);
    } else {
        assert((path + ending).drop_last() =~= path + ending.drop_last());
        assert((path + ending).last() == ending.last());
        no_separator_added(path, ending.drop_last());
    }
}

/// Where the daemon's startup lock for an endpoint stands.
pub fn endpoint_startup_lock_path(socket_path: &str) -> (path: String)
    ensures
        path@ == socket_path@ + ".lock"@,
{
    let mut path = socket_path.to_owned();
    path.append(".lock");
    path
}

/// The file beside the running executable that would be the daemon.
pub fn sibling_daemon(current_executable: &str) -> (path: String)
    ensures
        path@ == beside(current_executable@, "rmuxd"@),
{
    let chars = chars_of(current_executable);
    match last_name(&chars) {
        Some((start, _end)) => {
            proof {
                name_start_bounds(trimmed(current_executable@));
            }
            let mut path = text_between(&chars, 0, start);
            assert(path@ =~= trimmed(current_executable@).take(start as int));
            path.append("rmuxd");
            path
        },
        None => join_path(current_executable, "rmuxd"),
    }
}

/// The daemon to start: the chosen one, the one beside the running executable
/// if it is there, or else whichever the system finds.
pub fn daemon_executable(configured: Option<String>, sibling: String, sibling_is_file: bool) -> (
    executable: String)
    ensures
        executable@ == match configured {
            Some(executable) => executable@,
            None => if sibling_is_file {
                sibling@
            } else {
                "rmuxd"@
            },
        },
{
    match configured {
        Some(executable) => executable,
        None => if sibling_is_file {
            sibling
        } else {
            "rmuxd".to_owned()
        },
    }
}

/// The arguments that a daemon is started with.
pub fn daemon_arguments(socket_path: &str) -> (arguments: Vec<String>)
    ensures
        crate::text::texts(arguments@) == seq![
            "--socket"@,
            socket_path@,
            "--detach-from-terminal"@,
        ],
{
    let mut arguments: Vec<String> = Vec::new();
    arguments.push("--socket".to_owned());
    arguments.push(socket_path.to_owned());
    arguments.push("--detach-from-terminal".to_owned());
    assert(crate::text::texts(arguments@) =~= seq![
        "--socket"@,
        socket_path@,
        "--detach-from-terminal"@,
    ]);
    arguments
}

/// What is known of a file that has to belong to the user alone.
#[derive(Debug, Clone, Copy, PartialEq, Eq, Structural)]
pub struct FileFacts {
    pub is_symlink: bool,
    /// Whether it is what it has to be: a directory, or a socket.
    pub is_expected_kind: bool,
    pub owner: u32,
    pub mode: u32,
}

/// Whether others than the owner have some access.
pub open spec fn is_shared(mode: u32) -> bool {
    mode & 0o077 != 0
}

fn denied(before: &str, path: &str, after: &str) -> (error: IoFailure)
    ensures
        error.tells(IoFailureKind::PermissionDenied, before@ + path@ + after@),
{
    IoFailure { kind: IoFailureKind::PermissionDenied, message: between(before, path, after) }
}

/// Whether a runtime directory is private to the user.
pub fn secure_runtime_directory(directory: &str, facts: FileFacts, expected_user: u32) -> (result:
    Result<(), IoFailure>)
    ensures
        match result {
            Ok(_) => {
                &&& !facts.is_symlink
                &&& facts.is_expected_kind
                &&& facts.owner == expected_user
                &&& !is_shared(facts.mode)
            },
            Err(error) => if facts.is_symlink || !facts.is_expected_kind {
                error.tells(
                    IoFailureKind::PermissionDenied,
                    "runtime path "@ + directory@ + " is not a real directory"@,
                )
            } else if facts.owner != expected_user {
                error.tells(
                    IoFailureKind::PermissionDenied,
                    "runtime directory "@ + directory@ + " is owned by another user"@,
                )
            } else {
                &&& is_shared(facts.mode)
                &&& error.tells(
                    IoFailureKind::PermissionDenied,
                    "runtime directory "@ + directory@ + " is accessible by other users"@,
                )
            },
        },
{
    if facts.is_symlink || !facts.is_expected_kind {
        return Err(denied("runtime path ", directory, " is not a real directory"));
    }
    if facts.owner != expected_user {
        return Err(denied("runtime directory ", directory, " is owned by another user"));
    }
    if facts.mode & 0o077 != 0 {
        return Err(denied("runtime directory ", directory, " is accessible by other users"));
    }
    Ok(())
}

/// Whether a freshly bound endpoint may be restricted to the user: it has to
/// be the user's own socket.
pub fn check_socket_endpoint(path: &str, facts: FileFacts, expected_user: u32) -> (result: Result<
    (),
    IoFailure,
>)
    ensures
        match result {
            Ok(_) => {
                &&& !facts.is_symlink
                &&& facts.is_expected_kind
                &&& facts.owner == expected_user
            },
            Err(error) => if facts.is_symlink || !facts.is_expected_kind {
                error.tells(
                    IoFailureKind::PermissionDenied,
                    "local endpoint "@ + path@ + " is not a Unix socket"@,
                )
            } else {
                &&& facts.owner != expected_user
                &&& error.tells(
                    IoFailureKind::PermissionDenied,
                    "local endpoint "@ + path@ + " is owned by another user"@,
                )
            },
        },
{
    if facts.is_symlink || !facts.is_expected_kind {
        return Err(denied("local endpoint ", path, " is not a Unix socket"));
    }
    if facts.owner != expected_user {
        return Err(denied("local endpoint ", path, " is owned by another user"));
    }
    Ok(())
}

/// Whether an endpoint that was restricted to the user is private now.
pub fn check_socket_permissions(path: &str, mode: u32) -> (result: Result<(), IoFailure>)
    ensures
        match result {
            Ok(_) => !is_shared(mode),
            Err(error) => is_shared(mode) && error.tells(
                IoFailureKind::PermissionDenied,
                "local endpoint "@ + path@ + " is accessible by other users"@,
            ),
        },
{
    if mode & 0o077 != 0 {
        return Err(denied("local endpoint ", path, " is accessible by other users"));
    }
    Ok(())
}

/// Request messages accepted only by the owner-only local-control endpoint.
#[derive(Debug, Clone, Copy, PartialEq, Eq, Structural)]
pub enum LocalControlClientMessage {
    Handshake { protocol_version: u16 },
    RestartDaemon,
}

/// Stable errors for the owner-only local-control protocol.
#[derive(Debug, Clone, Copy, PartialEq, Eq, Structural)]
pub enum LocalControlErrorCode {
    InvalidRequest,
    ProtocolVersionMismatch,
    RestartUnsupported,
    RestartInProgress,
    Internal,
}

impl LocalControlErrorCode {
    pub open spec fn name(self) -> Seq<char> {
        match self {
            LocalControlErrorCode::InvalidRequest => "InvalidRequest"@,
            LocalControlErrorCode::ProtocolVersionMismatch => "ProtocolVersionMismatch"@,
            LocalControlErrorCode::RestartUnsupported => "RestartUnsupported"@,
            LocalControlErrorCode::RestartInProgress => "RestartInProgress"@,
            LocalControlErrorCode::Internal => "Internal"@,
        }
    }

    /// The name of the code, as messages quote it.
    pub fn label(&self) -> (label: &'static str)
        ensures
            label@ == self.name(),
    {
        match self {
            LocalControlErrorCode::InvalidRequest => "InvalidRequest",
            LocalControlErrorCode::ProtocolVersionMismatch => "ProtocolVersionMismatch",
            LocalControlErrorCode::RestartUnsupported => "RestartUnsupported",
            LocalControlErrorCode::RestartInProgress => "RestartInProgress",
            LocalControlErrorCode::Internal => "Internal",
        }
    }
}

/// Response messages of the owner-only local-control endpoint.
#[derive(Debug, PartialEq, Eq)]
pub enum LocalControlServerMessage {
    HandshakeAccepted { protocol_version: u16, restart_supported: bool },
    RestartAccepted { terminated_sessions: u32 },
    Error { code: LocalControlErrorCode, message: String },
}

impl LocalControlServerMessage {
    /// Whether the message is an error with this code and text.
    pub open spec fn is_error(self, code: LocalControlErrorCode, message: Seq<char>) -> bool {
        self matches LocalControlServerMessage::Error { code: c, message: m } && c == code && m@
            == message
    }

    pub open spec fn name(self) -> Seq<char> {
        match self {
            LocalControlServerMessage::HandshakeAccepted { .. } => "handshake_accepted"@,
            LocalControlServerMessage::RestartAccepted { .. } => "restart_accepted"@,
            LocalControlServerMessage::Error { .. } => "error"@,
        }
    }
}

/// The kind of a response, as messages quote it.
pub fn local_control_response_name(response: &LocalControlServerMessage) -> (name: &'static str)
    ensures
        name@ == response.name(),
{
    match response {
        LocalControlServerMessage::HandshakeAccepted { .. } => "handshake_accepted",
        LocalControlServerMessage::RestartAccepted { .. } => "restart_accepted",
        LocalControlServerMessage::Error { .. } => "error",
    }
}

/// Capabilities negotiated with the owner-only local-control endpoint.
#[derive(Debug, Clone, Copy, PartialEq, Eq, Structural)]
pub struct LocalControlCapabilities {
    pub restart_supported: bool,
}

/// Client-side errors for owner-only local-control operations.
#[derive(Debug, PartialEq, Eq)]
pub enum LocalControlClientError {
    /// The frames could not be written or read.
    Codec(String),
    RestartUnsupported,
    Server { code: LocalControlErrorCode, message: String },
    UnexpectedResponse { expected: &'static str, actual: &'static str },
}

impl LocalControlClientError {
    pub open spec fn text(self) -> Seq<char> {
        match self {
            LocalControlClientError::Codec(message) => message@,
            LocalControlClientError::RestartUnsupported =>
                "the running rmuxd does not support cooperative restart"@,
            LocalControlClientError::Server { code, message } => "local-control server error "@
                + code.name() + ": "@ + message@,
            LocalControlClientError::UnexpectedResponse { expected, actual } =>
                "expected local-control "@ + expected@ + ", received "@ + actual@,
        }
    }

    /// The error in words.
    pub fn message(&self) -> (message: String)
        ensures
            message@ == self.text(),
    {
        match self {
            LocalControlClientError::Codec(message) => message.clone(),
            LocalControlClientError::RestartUnsupported =>
                "the running rmuxd does not support cooperative restart".to_owned(),
            LocalControlClientError::Server { code, message } => {
                let mut text = between("local-control server error ", code.label(), ": ");
                text.append(message.as_str());
                text
            },
            LocalControlClientError::UnexpectedResponse { expected, actual } => {
                let mut text = between("expected local-control ", expected, ", received ");
                text.append(actual);
                text
            },
        }
    }

    /// Whether the error reports an unexpected response.
    pub open spec fn is_unexpected(self, expected: Seq<char>, actual: Seq<char>) -> bool {
        self matches LocalControlClientError::UnexpectedResponse { expected: e, actual: a } && e@
            == expected && a@ == actual
    }
}

/// What a daemon offers, by its answer to a handshake; `None` stands for the
/// end of the stream.
pub fn negotiated_capabilities(response: Option<LocalControlServerMessage>) -> (result: Result<
    LocalControlCapabilities,
    LocalControlClientError,
>)
    ensures
        match response {
            Some(LocalControlServerMessage::HandshakeAccepted {
                protocol_version,
                restart_supported,
            }) => if protocol_version == LOCAL_CONTROL_PROTOCOL_VERSION {
                result == Ok::<_, LocalControlClientError>(
                    LocalControlCapabilities { restart_supported },
                )
            } else {
                result is Err && result->Err_0.is_unexpected(
                    "handshake_accepted"@,
                    "handshake_accepted"@,
                )
            },
            Some(LocalControlServerMessage::Error { code, message }) => result == Err::<
                LocalControlCapabilities,
                _,
            >(LocalControlClientError::Server { code, message }),
            Some(other) => result is Err && result->Err_0.is_unexpected(
                "handshake_accepted"@,
                other.name(),
            ),
            None => result is Err && result->Err_0.is_unexpected(
                "handshake_accepted"@,
                "end_of_stream"@,
            ),
        },
{
    match response {
        Some(response) => match response {
            LocalControlServerMessage::HandshakeAccepted {
                protocol_version,
                restart_supported,
            } => if protocol_version == LOCAL_CONTROL_PROTOCOL_VERSION {
                Ok(LocalControlCapabilities { restart_supported })
            } else {
                Err(
                    LocalControlClientError::UnexpectedResponse {
                        expected: "handshake_accepted",
                        actual: "handshake_accepted",
                    },
                )
            },
            LocalControlServerMessage::Error { code, message } => Err(
                LocalControlClientError::Server { code, message },
            ),
            LocalControlServerMessage::RestartAccepted { .. } => Err(
                LocalControlClientError::UnexpectedResponse {
                    expected: "handshake_accepted",
                    actual: local_control_response_name(&response),
                },
            ),
        },
        None => Err(
            LocalControlClientError::UnexpectedResponse {
                expected: "handshake_accepted",
                actual: "end_of_stream",
            },
        ),
    }
}

/// The request that asks for a restart. A daemon that does not offer one is
/// never sent it.
pub fn restart_request(capabilities: LocalControlCapabilities) -> (result: Result<
    LocalControlClientMessage,
    LocalControlClientError,
>)
    ensures
        result == if capabilities.restart_supported {
            Ok(LocalControlClientMessage::RestartDaemon)
        } else {
            Err(LocalControlClientError::RestartUnsupported)
        },
{
    if capabilities.restart_supported {
        Ok(LocalControlClientMessage::RestartDaemon)
    } else {
        Err(LocalControlClientError::RestartUnsupported)
    }
}

/// How many sessions a restart ends, by the daemon's answer; `None` stands for
/// the end of the stream.
pub fn restart_result(response: Option<LocalControlServerMessage>) -> (result: Result<
    u32,
    LocalControlClientError,
>)
    ensures
        match response {
            Some(LocalControlServerMessage::RestartAccepted { terminated_sessions }) => result
                == Ok::<_, LocalControlClientError>(terminated_sessions),
            Some(LocalControlServerMessage::Error { code, message }) => result == Err::<u32, _>(
                LocalControlClientError::Server { code, message },
            ),
            Some(other) => result is Err && result->Err_0.is_unexpected(
                "restart_accepted"@,
                other.name(),
            ),
            None => result is Err && result->Err_0.is_unexpected(
                "restart_accepted"@,
                "end_of_stream"@,
            ),
        },
{
    match response {
        Some(response) => match response {
            LocalControlServerMessage::RestartAccepted { terminated_sessions } => Ok(
                terminated_sessions,
            ),
            LocalControlServerMessage::Error { code, message } => Err(
                LocalControlClientError::Server { code, message },
            ),
            LocalControlServerMessage::HandshakeAccepted { .. } => Err(
                LocalControlClientError::UnexpectedResponse {
                    expected: "restart_accepted",
                    actual: local_control_response_name(&response),
                },
            ),
        },
        None => Err(
            LocalControlClientError::UnexpectedResponse {
                expected: "restart_accepted",
                actual: "end_of_stream",
            },
        ),
    }
}

/// The kinds of input and output failures that are told apart.
#[derive(Debug, Clone, Copy, PartialEq, Eq, Structural)]
pub enum IoFailureKind {
    NotFound,
    ConnectionRefused,
    PermissionDenied,
    InvalidData,
    InvalidInput,
    UnexpectedEof,
    Other,
}

/// A failed input or output operation.
#[derive(Debug, PartialEq, Eq)]
pub struct IoFailure {
    pub kind: IoFailureKind,
    pub message: String,
}

impl IoFailure {
    /// Whether the failure is of a kind and says so.
    pub open spec fn tells(self, kind: IoFailureKind, message: Seq<char>) -> bool {
        self.kind == kind && self.message@ == message
    }

    /// Whether nothing serves the endpoint.
    pub open spec fn means_absent(self) -> bool {
        self.kind == IoFailureKind::NotFound || self.kind == IoFailureKind::ConnectionRefused
    }
}

/// Whether connecting may be tried again.
pub fn retryable_connect_error(error: &IoFailure) -> (retryable: bool)
    ensures
        retryable == error.means_absent(),
{
    match error.kind {
        IoFailureKind::NotFound => true,
        IoFailureKind::ConnectionRefused => true,
        _ => false,
    }
}

/// Failure to connect to or launch the local daemon.
#[derive(Debug, PartialEq, Eq)]
pub enum ConnectError {
    Connect(IoFailure),
    CurrentExecutable(IoFailure),
    StartDaemon { executable: String, source: IoFailure },
}

impl ConnectError {
    pub open spec fn text(self) -> Seq<char> {
        match self {
            ConnectError::Connect(error) => "could not connect to rmuxd: "@ + error.message@,
            ConnectError::CurrentExecutable(error) =>
                "could not determine the current executable: "@ + error.message@,
            ConnectError::StartDaemon { executable, source } =>
                "could not start daemon using "@ + executable@ + ": "@ + source.message@,
        }
    }

    /// The error in words.
    pub fn message(&self) -> (message: String)
        ensures
            message@ == self.text(),
    {
        match self {
            ConnectError::Connect(error) => prefixed(
                "could not connect to rmuxd: ",
                error.message.as_str(),
            ),
            ConnectError::CurrentExecutable(error) => prefixed(
                "could not determine the current executable: ",
                error.message.as_str(),
            ),
            ConnectError::StartDaemon { executable, source } => {
                let mut text = between("could not start daemon using ", executable.as_str(), ": ");
                text.append(source.message.as_str());
                text
            },
        }
    }

    /// Returns whether the endpoint was absent or no process was serving it.
    pub fn is_endpoint_unavailable(&self) -> (unavailable: bool)
        ensures
            unavailable == (self matches ConnectError::Connect(error) && error.means_absent()),
    {
        match self {
            ConnectError::Connect(error) => retryable_connect_error(error),
            ConnectError::CurrentExecutable(_) => false,
            ConnectError::StartDaemon { .. } => false,
        }
    }
}

/// Failure while waiting for an existing endpoint to drain.
#[derive(Debug, PartialEq, Eq)]
pub enum EndpointDrainError {
    TimedOut { timeout_ms: u64 },
    Connect(IoFailure),
}

impl EndpointDrainError {
    pub open spec fn text(self) -> Seq<char> {
        match self {
            EndpointDrainError::TimedOut { timeout_ms } =>
                "rmuxd did not release the local endpoint within "@ + duration_words(timeout_ms),
            EndpointDrainError::Connect(error) => "could not probe the rmuxd endpoint: "@
                + error.message@,
        }
    }

    /// The error in words.
    pub fn message(&self) -> (message: String)
        ensures
            message@ == self.text(),
    {
        match self {
            EndpointDrainError::TimedOut { timeout_ms } => prefixed(
                "rmuxd did not release the local endpoint within ",
                duration_text(*timeout_ms).as_str(),
            ),
            EndpointDrainError::Connect(error) => prefixed(
                "could not probe the rmuxd endpoint: ",
                error.message.as_str(),
            ),
        }
    }
}

/// How far an attempt to reach the daemon has come.
#[derive(Debug, Clone, Copy, PartialEq, Eq, Structural)]
pub enum ConnectAttempt {
    /// Nothing was started yet.
    First,
    /// A daemon was started, and is waited for until a deadline.
    Started { deadline_ms: u64 },
}

/// What a failed connection leads to.
#[derive(Debug, PartialEq, Eq)]
pub enum ConnectStep {
    /// Starts a daemon.
    Start,
    /// Tries again after [`CONNECT_RETRY_INTERVAL_MS`].
    Retry,
    Fail(ConnectError),
}

impl ConnectAttempt {
    /// The attempt after a daemon was started.
    pub fn started(now_ms: u64, retry_timeout_ms: u64) -> (attempt: Self)
        requires
            now_ms + retry_timeout_ms <= u64::MAX,
        ensures
            attempt == (ConnectAttempt::Started {
                deadline_ms: (now_ms + retry_timeout_ms) as u64,
            }),
    {
        ConnectAttempt::Started { deadline_ms: now_ms + retry_timeout_ms }
    }

    /// What to do after connecting failed: only an endpoint that nothing serves
    /// leads to a start, which happens once, and to further tries.
    pub fn after_failure(&self, error: IoFailure, now_ms: u64) -> (step: ConnectStep)
        ensures
            step == match *self {
                ConnectAttempt::First => if error.means_absent() {
                    ConnectStep::Start
                } else {
                    ConnectStep::Fail(ConnectError::Connect(error))
                },
                ConnectAttempt::Started { deadline_ms } => if now_ms < deadline_ms
                    && error.means_absent() {
                    ConnectStep::Retry
                } else {
                    ConnectStep::Fail(ConnectError::Connect(error))
                },
            },
    {
        let retryable = retryable_connect_error(&error);
        match self {
            ConnectAttempt::First => if retryable {
                ConnectStep::Start
            } else {
                ConnectStep::Fail(ConnectError::Connect(error))
            },
            ConnectAttempt::Started { deadline_ms } => if now_ms < *deadline_ms && retryable {
                ConnectStep::Retry
            } else {
                ConnectStep::Fail(ConnectError::Connect(error))
            },
        }
    }
}

/// Where waiting for an endpoint to go away stands.
#[derive(Debug, PartialEq, Eq)]
pub enum DrainStep {
    Drained,
    /// Probes again after [`CONNECT_RETRY_INTERVAL_MS`].
    Wait,
    Fail(EndpointDrainError),
}

/// Whether a probe found nothing that serves the endpoint. A probe never ends
/// a daemon; one that fails in another way is an error.
pub fn endpoint_is_unavailable(probe: Result<(), IoFailure>) -> (result: Result<
    bool,
    EndpointDrainError,
>)
    ensures
        result == match probe {
            Ok(_) => Ok(false),
            Err(error) => if error.means_absent() {
                Ok(true)
            } else {
                Err(EndpointDrainError::Connect(error))
            },
        },
{
    match probe {
        Ok(_) => Ok(false),
        Err(error) => if retryable_connect_error(&error) {
            Ok(true)
        } else {
            Err(EndpointDrainError::Connect(error))
        },
    }
}

/// What to do after one endpoint was probed.
pub fn drain_step(
    probe: Result<(), IoFailure>,
    now_ms: u64,
    deadline_ms: u64,
    timeout_ms: u64,
) -> (step: DrainStep)
    ensures
        step == match probe {
            Err(error) => if error.means_absent() {
                DrainStep::Drained
            } else {
                DrainStep::Fail(EndpointDrainError::Connect(error))
            },
            Ok(_) => if now_ms >= deadline_ms {
                DrainStep::Fail(EndpointDrainError::TimedOut { timeout_ms })
            } else {
                DrainStep::Wait
            },
        },
{
    match endpoint_is_unavailable(probe) {
        Ok(true) => DrainStep::Drained,
        Ok(false) => if now_ms >= deadline_ms {
            DrainStep::Fail(EndpointDrainError::TimedOut { timeout_ms })
        } else {
            DrainStep::Wait
        },
        Err(error) => DrainStep::Fail(error),
    }
}

/// What to do after both endpoints of a daemon were probed. The daemon is gone
/// only when both are.
pub fn shutdown_step(
    data: Result<(), IoFailure>,
    control: Result<(), IoFailure>,
    now_ms: u64,
    deadline_ms: u64,
    timeout_ms: u64,
) -> (step: DrainStep)
    ensures
        step == if data is Err && !data->Err_0.means_absent() {
            DrainStep::Fail(EndpointDrainError::Connect(data->Err_0))
        } else if control is Err && !control->Err_0.means_absent() {
            DrainStep::Fail(EndpointDrainError::Connect(control->Err_0))
        } else if data is Err && control is Err {
            DrainStep::Drained
        } else if now_ms >= deadline_ms {
            DrainStep::Fail(EndpointDrainError::TimedOut { timeout_ms })
        } else {
            DrainStep::Wait
        },
{
    let data_is_gone = match endpoint_is_unavailable(data) {
        Ok(gone) => gone,
        Err(error) => {
            return DrainStep::Fail(error);
        },
    };
    let control_is_gone = match endpoint_is_unavailable(control) {
        Ok(gone) => gone,
        Err(error) => {
            return DrainStep::Fail(error);
        },
    };
    if data_is_gone && control_is_gone {
        return DrainStep::Drained;
    }
    if now_ms >= deadline_ms {
        return DrainStep::Fail(EndpointDrainError::TimedOut { timeout_ms });
    }
    DrainStep::Wait
}

/// Whether a text is a name that can stand in a directory.
pub open spec fn plain_name(name: Seq<char>) -> bool {
    &&& name.len() > 0
    &&& name != seq!['.']
    &&& name != seq!['.', '.']
    &&& forall|i: int| 0 <= i < name.len() ==> #[trigger] name[i] != '/'
}

proof fn name_start_after(directory: Seq<char>, name: Seq<char>)
    requires
        directory.len() > 0,
        directory.last() == '/',
        forall|i: int| 0 <= i < name.len() ==> #[trigger] name[i] != '/',
    ensures
        name_start(directory + name) == directory.len(),
    decreases name.len(),
{
    if name.len() == 0 {
        assert(directory + name =~= directory);
    } else {
        let head = name.drop_last();
        assert forall|i: int| 0 <= i < head.len() implies #[trigger] head[i] != '/' by {
            assert(name[i] == head[i]);
        }
        name_start_after(directory, head);
        assert((directory + name).drop_last() =~= directory + head);
        assert((directory + name).last() == name[name.len() - 1]);
    }
}

/// The name of what stands in a directory is the name that it was put there
/// under, and what stands beside it stands in the same directory.
pub proof fn neighbours_share_a_directory(
    directory: Seq<char>,
    name: Seq<char>,
    other: Seq<char>,
)
    requires
        directory.len() > 0,
        plain_name(name),
    ensures
        file_name(inside(directory, name)) == Some(name),
        trimmed(inside(directory, name)) == inside(directory, name),
        beside(inside(directory, name), other) == inside(directory, other),
        inside(directory, name).take(directory.len() as int) == directory,
{
    let place = if directory.last() == '/' {
        directory
    } else {
        directory.push('/')
    };
    let path = inside(directory, name);
    assert(path == place + name);
    name_start_after(place, name);
    assert(path.last() == name[name.len() - 1]);
    if path.last() == '.' && path[path.len() - 2] == '/' {
        if name.len() > 1 {
            assert(path[path.len() - 2] == name[name.len() - 2]);
        } else {
            assert(name =~= seq!['.']);
        }
    }
    assert(path.skip(place.len() as int) =~= name);
    assert(path.take(place.len() as int) =~= place);
    assert(path.take(directory.len() as int) =~= directory);
}

/// Every unit can be read back from its two bytes, the less significant first.
pub proof fn units_are_read_back(units: Seq<u16>)
    ensures
        unit_bytes(units).len() == 2 * units.len(),
        forall|i: int|
            0 <= i < units.len() ==> unit_bytes(units)[2 * i] + 256 * unit_bytes(units)[2 * i + 1]
                == #[trigger] units[i],
    decreases units.len(),
{
    if units.len() > 0 {
        let head = units.drop_last();
        units_are_read_back(head);
        let before = unit_bytes(head);
        let after = unit_bytes(units);
        assert forall|i: int| 0 <= i < units.len() implies after[2 * i] + 256 * after[2 * i + 1]
            == #[trigger] units[i] by {
            if i < head.len() {
                assert(head[i] == units[i]);
                assert(after[2 * i] == before[2 * i]);
                assert(after[2 * i + 1] == before[2 * i + 1]);
            }
        }
    }
}

/// A file is private exactly when neither its group nor others may do anything
/// with it: none of the last two octal digits of its mode is set.
pub proof fn private_files_have_no_shared_access(mode: u32)
    ensures
        is_shared(mode) <==> mode % 64 != 0,
        !is_shared(0o600),
        !is_shared(0o700),
{
    assert(mode & 0o077 != 0 <==> mode % 64 != 0) by (bit_vector);
    assert(0o600u32 & 0o077 == 0) by (bit_vector);
    assert(0o700u32 & 0o077 == 0) by (bit_vector);
}

/// Trimming takes separators and single dots off the end of a path, all of them
/// and nothing else: what is left is a beginning of the path, names the same
/// thing whatever of that kind follows it, and does not end in a separator.
pub proof fn trimming_takes_only_empty_endings(path: Seq<char>)
    ensures
        trimmed(path).len() <= path.len(),
        trimmed(path) == path.take(trimmed(path).len() as int),
        trimmed(path).len() > 0 ==> trimmed(path).last() != '/',
        trimmed(path.push('/')) == trimmed(path),
        trimmed(path.push('/').push('.')) == trimmed(path),
        trimmed(trimmed(path)) == trimmed(path),
        forall|i: int|
            trimmed(path).len() <= i < path.len() ==> #[trigger] path[i] == '/' || path[i] == '.',
    decreases path.len(),
{
    let slash = path.push('/');
    assert(slash.drop_last() =~= path);
    let dot = slash.push('.');
    assert(dot.drop_last() =~= slash);
    assert(dot[dot.len() - 2] == '/');
    assert(trimmed(slash) == trimmed(path));
    assert(trimmed(dot) == trimmed(slash));
    if path.len() > 0 && (path.last() == '/' || (path.len() >= 2 && path.last() == '.'
        && path[path.len() - 2] == '/')) {
        let head = path.drop_last();
        trimming_takes_only_empty_endings(head);
        let n = trimmed(head).len() as int;
        assert(head.take(n) =~= path.take(n));
        assert forall|i: int| n <= i < path.len() implies #[trigger] path[i] == '/' || path[i]
            == '.' by {
            if i < head.len() {
                assert(head[i] == path[i]);
            }
        }
    } else {
        assert(path.take(path.len() as int) =~= path);
    }
}

/// Nothing serves an endpoint that does not exist or refuses connections; any
/// other failure may be one of something that is there.
pub proof fn only_two_failures_mean_absence(failure: IoFailure)
    ensures
        failure.means_absent() ==> failure.kind is NotFound || failure.kind is ConnectionRefused,
        failure.kind is NotFound ==> failure.means_absent(),
        failure.kind is ConnectionRefused ==> failure.means_absent(),
{
}

} // verus!
