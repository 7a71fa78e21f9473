//! The commands of the command line, and what they print.
use vstd::prelude::*;
use vstd::string::*;

use crate::client::{
    AttachRequest, AttachedSession, ClientError, ClientIdentity, SessionShellState,
    DEFAULT_PRESENTATION_WINDOW_BYTES,
};
use crate::codec::CodecError;
use crate::controller::{AttachExit, AttachExitReason};
use crate::ipc::{ConnectError, IoFailureKind};
use crate::presenter::{grid_text, grid_words, InteractiveAttachOptions};
use crate::proto::{
    CommandSpec, ErrorCode, PromptPhase, SessionInfo, SessionStatus, ShellState, ShellType,
    TerminalSize, TuiHint,
};
use crate::shell::{init_script, Shell};
use crate::text::{
    between, decimal, decimal_text, exit_text, exit_words, optional, prefixed, same_text, texts,
};

verus! {

/// How long a lost attachment waits before it first tries to come back, in
/// milliseconds.
pub const INITIAL_RECONNECT_DELAY: u64 = 250;

/// How long it waits at most between two tries, in milliseconds.
pub const MAX_RECONNECT_DELAY: u64 = 5_000;

/// Canonical commands, independent of how the daemon is reached.
#[allow(inconsistent_fields)]
#[derive(Debug, PartialEq, Eq)]
pub enum Command {
    /// Create a persistent terminal session.
    New {
        name: Option<String>,
        /// Create without opening a terminal UI.
        detached: bool,
        /// Attach to the named session if it already exists.
        attach_if_exists: bool,
        /// Initial working directory. Local sessions default to the current directory.
        cwd: Option<String>,
        /// Program and arguments. Omit to use the target's default shell.
        command: Vec<String>,
    },
    /// List running sessions.
    List,
    /// Inspect the server-owned layout and terminal IDs.
    View { session: String },
    /// Split a terminal, creating another terminal in the same view.
    Split { terminal_id: String, vertical: bool, cwd: Option<String>, command: Vec<String> },
    /// Move a terminal into a new top-level session.
    Promote { terminal_id: String, name: Option<String> },
    /// Join the source and destination layouts in a horizontal split.
    Merge { source: String, destination: String },
    /// Terminate one terminal, keeping its siblings alive.
    KillTerminal { terminal_id: String },
    /// Show non-sensitive shell-awareness metadata for a running session.
    State { session: String },
    /// Attach to a session by name or ID.
    Attach {
        session: Option<String>,
        /// Session name or ID; defaults to the newest running session.
        target: Option<String>,
        /// Use the plain single-terminal presenter instead of the TUI.
        raw: bool,
        /// Resume at this raw output byte sequence.
        resume_from: Option<u64>,
        /// Attach without requesting the input lease.
        read_only: bool,
        /// Request layout ownership and explicitly resize the PTY to this terminal.
        resize: bool,
    },
    /// Terminate a session by name or ID.
    Kill { session: Option<String>, target: Option<String> },
    /// Look at a session that has ended.
    Archive { session_id: String },
    /// Print shell integration helpers that do not require a daemon connection.
    Shell { command: ShellCommand },
}

#[derive(Debug, Clone, Copy, PartialEq, Eq, Structural)]
pub enum ShellCommand {
    /// Print a shell startup snippet for session awareness.
    Init { shell: ShellKind },
}

#[derive(Debug, Clone, Copy, PartialEq, Eq, Structural)]
pub enum ShellKind {
    Bash,
    Zsh,
}

impl ShellKind {
    pub open spec fn script(self) -> Seq<char> {
        match self {
            ShellKind::Bash => crate::shell::BASH_INIT@,
            ShellKind::Zsh => crate::shell::ZSH_INIT@,
        }
    }
}

/// Splits a command line into its program and arguments.
pub fn command_spec(command: Vec<String>) -> (spec: Option<CommandSpec>)
    ensures
        match spec {
            None => command@.len() == 0,
            Some(spec) => {
                &&& command@.len() > 0
                &&& spec.program@ == command@[0]@
                &&& texts(spec.arguments@) == texts(command@).skip(1)
            },
        },
{
    if command.len() == 0 {
        return None;
    }
    let mut arguments: Vec<String> = Vec::new();
    let mut index: usize = 1;
    while index < command.len()
        invariant
            1 <= index <= command@.len(),
            arguments@.len() == index - 1,
            forall|i: int| 0 <= i < index - 1 ==> (#[trigger] arguments@[i])@ == command@[i + 1]@,
        decreases command@.len() - index,
    {
        arguments.push(command[index].clone());
        index += 1;
    }
    assert(texts(arguments@) =~= texts(command@).skip(1));
    Some(CommandSpec { program: command[0].clone(), arguments })
}

/// What the executable does about its arguments.
#[derive(Debug, PartialEq, Eq)]
pub enum CommandPlan {
    /// Shows an archived session, without input.
    ShowArchive { session_id: String },
    /// Creates a session. It is printed if `detached`, and shown otherwise.
    Create {
        name: Option<String>,
        cwd: Option<String>,
        command: Vec<String>,
        detached: bool,
        attach_if_exists: bool,
    },
    /// Shows a session, the newest one unless a target is given.
    Show { target: Option<String>, read_only: bool },
    /// Runs a command that opens no interface.
    Run(Command),
}

/// The target of a command: the flag counts before the position.
pub open spec fn chosen(target: Option<String>, session: Option<String>) -> Option<String> {
    match target {
        Some(target) => Some(target),
        None => session,
    }
}

fn choose_target(target: Option<String>, session: Option<String>) -> (choice: Option<String>)
    ensures
        choice == chosen(target, session),
{
    match target {
        Some(target) => Some(target),
        None => session,
    }
}

/// Whether the session at a position is the newest that runs: the first listed
/// of those that were created last.
pub open spec fn is_newest(sessions: Seq<SessionInfo>, at: int) -> bool {
    &&& 0 <= at < sessions.len()
    &&& sessions[at].status == SessionStatus::Running
    &&& forall|i: int|
        0 <= i < sessions.len() && (#[trigger] sessions[i]).status == SessionStatus::Running ==> {
            &&& sessions[i].created_at_ms <= sessions[at].created_at_ms
            &&& i < at ==> sessions[i].created_at_ms < sessions[at].created_at_ms
        }
}

/// The session to attach to: the target, or else the newest session that runs.
pub fn resolve_session(target: Option<String>, sessions: &Vec<SessionInfo>) -> (session: Option<
    String,
>)
    ensures
        match target {
            Some(_) => session == target,
            None => match session {
                None => forall|i: int|
                    0 <= i < sessions@.len() ==> (#[trigger] sessions@[i]).status
                        != SessionStatus::Running,
                Some(id) => exists|at: int| #[trigger]
                    is_newest(sessions@, at) && id@ == sessions@[at].session_id@,
            },
        },
{
    if target.is_some() {
        return target;
    }
    let mut newest: Option<usize> = None;
    let mut index: usize = 0;
    while index < sessions.len()
        invariant
            index <= sessions@.len(),
            match newest {
                None => forall|i: int|
                    0 <= i < index ==> (#[trigger] sessions@[i]).status != SessionStatus::Running,
                Some(at) => at < index && is_newest(sessions@.take(index as int), at as int),
            },
        decreases sessions@.len() - index,
    {
        let ghost before = sessions@.take(index as int);
        let ghost after = sessions@.take(index + 1);
        assert(after =~= before.push(sessions@[index as int]));
        assert(forall|i: int| 0 <= i < index ==> after[i] == before[i]);
        if sessions[index].status == SessionStatus::Running {
            let newer = match newest {
                None => true,
                Some(at) => sessions[index].created_at_ms > sessions[at].created_at_ms,
            };
            if newer {
                newest = Some(index);
            }
        }
        index += 1;
    }
    assert(sessions@.take(index as int) =~= sessions@);
    match newest {
        Some(at) => Some(sessions[at].session_id.clone()),
        None => None,
    }
}

/// Whether a session is the first of its name in a list.
pub open spec fn first_named(sessions: Seq<SessionInfo>, name: Seq<char>, at: int) -> bool {
    &&& 0 <= at < sessions.len()
    &&& sessions[at].name@ == name
    &&& forall|i: int| 0 <= i < at ==> (#[trigger] sessions[i]).name@ != name
}

/// The session to attach to in place of a new one: the first of the wanted name,
/// where an existing session will do.
pub fn existing_session(
    name: &Option<String>,
    attach_if_exists: bool,
    sessions: &Vec<SessionInfo>,
) -> (found: Option<usize>)
    ensures
        match found {
            Some(at) => attach_if_exists && *name is Some && first_named(
                sessions@,
                name->0@,
                at as int,
            ),
            None => attach_if_exists && *name is Some ==> forall|i: int|
                0 <= i < sessions@.len() ==> (#[trigger] sessions@[i]).name@ != name->0@,
        },
{
    if !attach_if_exists {
        return None;
    }
    match name {
        Some(wanted) => {
            let mut index: usize = 0;
            while index < sessions.len()
                invariant
                    attach_if_exists,
                    *name == Some(*wanted),
                    index <= sessions@.len(),
                    forall|i: int|
                        0 <= i < index ==> (#[trigger] sessions@[i]).name@ != wanted@,
                decreases sessions@.len() - index,
            {
                if same_text(sessions[index].name.as_str(), wanted.as_str()) {
                    assert(first_named(sessions@, wanted@, index as int));
                    return Some(index);
                }
                index += 1;
            }
            None
        },
        None => None,
    }
}

/// Decides what to do about a command; without one a session is created and
/// shown.
pub fn plan_command(command: Option<Command>) -> (plan: CommandPlan)
    ensures
        match command {
            None => plan matches CommandPlan::Create {
                name,
                cwd,
                command: line,
                detached,
                attach_if_exists,
            } && name is None && cwd is None && line@.len() == 0 && !detached && !attach_if_exists,
            Some(Command::Archive { session_id }) => plan == (CommandPlan::ShowArchive {
                session_id,
            }),
            Some(Command::New { name, detached, attach_if_exists, cwd, command: line }) => plan == (
            CommandPlan::Create { name, cwd, command: line, detached, attach_if_exists }),
            Some(Command::Attach { session, target, raw, resume_from, read_only, resize }) =>
            if !raw && resume_from is None {
                plan == (CommandPlan::Show { target: chosen(target, session), read_only })
            } else {
                plan == CommandPlan::Run(command->0)
            },
            Some(other) => plan == CommandPlan::Run(other),
        },
{
    match command {
        None => CommandPlan::Create {
            name: None,
            cwd: None,
            command: Vec::new(),
            detached: false,
            attach_if_exists: false,
        },
        Some(Command::Archive { session_id }) => CommandPlan::ShowArchive { session_id },
        Some(Command::New { name, detached, attach_if_exists, cwd, command: line }) =>
        CommandPlan::Create { name, cwd, command: line, detached, attach_if_exists },
        Some(Command::Attach { session, target, raw, resume_from, read_only, resize }) => {
            if !raw && resume_from.is_none() {
                CommandPlan::Show { target: choose_target(target, session), read_only }
            } else {
                CommandPlan::Run(
                    Command::Attach { session, target, raw, resume_from, read_only, resize },
                )
            }
        },
        Some(other) => CommandPlan::Run(other),
    }
}

/// What a command that opens no interface does.
#[allow(inconsistent_fields)]
#[derive(Debug, PartialEq, Eq)]
pub enum CommandStep {
    CreateSession {
        name: Option<String>,
        command: Option<CommandSpec>,
        working_directory: Option<String>,
    },
    ListSessions,
    ShowShellState { session: String },
    /// Attaches on the plain terminal, to the newest session unless one is given.
    AttachSession {
        session: Option<String>,
        resume_from: Option<u64>,
        request_input_lease: bool,
        request_layout_lease: bool,
    },
    KillSession { session: String },
    Print(&'static str),
    /// The command needs more than a session: see [`crate::topology`].
    Arrange(Command),
}

/// Decides what a command that opens no interface does.
pub fn run(command: Command) -> (step: CommandStep)
    ensures
        match command {
            Command::New { name, cwd, command: line, .. } => step matches
                CommandStep::CreateSession { name: n, command: c, working_directory } && {
                &&& n == name
                &&& working_directory == cwd
                &&& c is None <==> line@.len() == 0
                &&& c matches Some(spec) ==> {
                    &&& spec.program@ == line@[0]@
                    &&& texts(spec.arguments@) == texts(line@).skip(1)
                }
            },
            Command::List => step == CommandStep::ListSessions,
            Command::State { session } => step == (CommandStep::ShowShellState { session }),
            Command::Attach { session, target, resume_from, read_only, resize, .. } => step == (
            CommandStep::AttachSession {
                session: chosen(target, session),
                resume_from,
                request_input_lease: !read_only,
                request_layout_lease: resize,
            }),
            Command::Kill { session, target } => match chosen(target, session) {
                Some(selected) => step == (CommandStep::KillSession { session: selected }),
                None => step == CommandStep::Arrange(command),
            },
            Command::Shell { command: ShellCommand::Init { shell } } => step matches
                CommandStep::Print(script) && script@ == shell.script(),
            _ => step == CommandStep::Arrange(command),
        },
{
    match command {
        Command::New { name, cwd, command: line, detached: _, attach_if_exists: _ } =>
        CommandStep::CreateSession { name, command: command_spec(line), working_directory: cwd },
        Command::List => CommandStep::ListSessions,
        Command::State { session } => CommandStep::ShowShellState { session },
        Command::Attach { session, target, resume_from, read_only, resize, raw: _ } =>
        CommandStep::AttachSession {
            session: choose_target(target, session),
            resume_from,
            request_input_lease: !read_only,
            request_layout_lease: resize,
        },
        Command::Kill { session, target } => match target {
            Some(selected) => CommandStep::KillSession { session: selected },
            None => match session {
                Some(selected) => CommandStep::KillSession { session: selected },
                None => CommandStep::Arrange(Command::Kill { session: None, target: None }),
            },
        },
        Command::Shell { command: ShellCommand::Init { shell } } => CommandStep::Print(
            init_script(
                match shell {
                    ShellKind::Bash => Shell::Bash,
                    ShellKind::Zsh => Shell::Zsh,
                },
            ),
        ),
        other => CommandStep::Arrange(other),
    }
}

/// Connector used by the standalone local executable.
#[derive(Debug, PartialEq, Eq)]
pub struct LocalConnector {
    socket_path: String,
}

impl LocalConnector {
    pub closed spec fn socket(&self) -> Seq<char> {
        self.socket_path@
    }

    pub fn new(socket_path: String) -> (connector: Self)
        ensures
            connector.socket() == socket_path@,
    {
        LocalConnector { socket_path }
    }

    /// The endpoint that the connector reaches.
    pub fn socket_path(&self) -> (path: &str)
        ensures
            path@ == self.socket(),
    {
        self.socket_path.as_str()
    }

    /// Whether connecting may be tried again.
    pub fn is_retryable(&self, error: &ConnectError) -> (retryable: bool)
        ensures
            retryable == (*error matches ConnectError::Connect(failure) && failure.means_absent()),
    {
        error.is_endpoint_unavailable()
    }

    pub fn is_local(&self) -> (local: bool)
        ensures
            local,
    {
        true
    }

    pub fn label(&self) -> (label: &'static str)
        ensures
            label@ == "local"@,
    {
        "local"
    }

    pub fn connection_kind(&self) -> (kind: &'static str)
        ensures
            kind@ == "local"@,
    {
        "local"
    }

    pub fn client_name(&self) -> (name: &'static str)
        ensures
            name@ == "rmux"@,
    {
        "rmux"
    }

    pub fn status_prefix(&self) -> (prefix: &'static str)
        ensures
            prefix@ == "rmux"@,
    {
        "rmux"
    }
}

/// How a client introduces itself.
pub fn client_identity(client_name: &str, client_version: &str) -> (identity: ClientIdentity)
    ensures
        identity.name@ == client_name@,
        identity.version@ == client_version@,
{
    ClientIdentity { name: client_name.to_owned(), version: client_version.to_owned() }
}

/// Whether a new session needs the directory in which the client stands: only
/// a local one without a directory of its own.
pub fn needs_current_directory(requested: &Option<String>, is_local: bool) -> (needs: bool)
    ensures
        needs == (requested is None && is_local),
{
    requested.is_none() && is_local
}

/// Whether an attachment that failed this way may be tried again.
pub open spec fn may_retry(error: ClientError) -> bool {
    match error {
        ClientError::UnexpectedEof => true,
        ClientError::Codec(CodecError::Io(failure)) => !(failure.kind == IoFailureKind::InvalidData
            || failure.kind == IoFailureKind::InvalidInput || failure.kind
            == IoFailureKind::PermissionDenied),
        _ => false,
    }
}

pub fn is_retryable_protocol_error(error: &ClientError) -> (retryable: bool)
    ensures
        retryable == may_retry(*error),
{
    match error {
        ClientError::UnexpectedEof => true,
        ClientError::Codec(codec) => match codec {
            CodecError::Io(failure) => match failure.kind {
                IoFailureKind::InvalidData => false,
                IoFailureKind::InvalidInput => false,
                IoFailureKind::PermissionDenied => false,
                _ => true,
            },
            _ => false,
        },
        _ => false,
    }
}

/// An attachment that comes back when its connection is lost.
pub struct AttachmentLoop {
    session: String,
    resume_from: Option<u64>,
    reconnect_delay: u64,
    recover_leases_after_connection_loss: bool,
    attachment_token: Option<String>,
    request_input_lease: bool,
    request_layout_lease: bool,
}

/// The mathematical content of an [`AttachmentLoop`].
#[verifier::ext_equal]
pub struct Persistence {
    pub session: Seq<char>,
    /// Where the next attachment resumes.
    pub resume: Option<u64>,
    /// How long the next wait is, in milliseconds.
    pub delay: u64,
    /// Whether leases that were lost are to be claimed again.
    pub recovers: bool,
    /// The credential of the attachment to resume.
    pub token: Option<Seq<char>>,
    pub input: bool,
    pub layout: bool,
}

impl Persistence {
    /// After a wait: the next one is twice as long, up to a bound.
    pub open spec fn waited(self) -> Persistence {
        Persistence {
            delay: if self.delay > MAX_RECONNECT_DELAY / 2 {
                MAX_RECONNECT_DELAY
            } else {
                (self.delay * 2) as u64
            },
            ..self
        }
    }

    pub open spec fn wf(self) -> bool {
        INITIAL_RECONNECT_DELAY <= self.delay <= MAX_RECONNECT_DELAY
    }
}

impl View for AttachmentLoop {
    type V = Persistence;

    closed spec fn view(&self) -> Persistence {
        Persistence {
            session: self.session@,
            resume: self.resume_from,
            delay: self.reconnect_delay,
            recovers: self.recover_leases_after_connection_loss,
            token: optional(self.attachment_token),
            input: self.request_input_lease,
            layout: self.request_layout_lease,
        }
    }
}

/// What follows when an attachment did not go on.
#[derive(Debug, Clone, Copy, PartialEq, Eq, Structural)]
pub enum LoopStep {
    /// Tries again at once.
    Again,
    /// Tries again after this many milliseconds.
    Wait(u64),
    /// Gives up with the error.
    Fail,
    /// The user detached.
    Detached,
    /// The session ended.
    Ended(Option<u32>),
}

impl AttachmentLoop {
    pub fn new(
        session: String,
        resume_from: Option<u64>,
        request_input_lease: bool,
        request_layout_lease: bool,
    ) -> (state: Self)
        ensures
            state@.wf(),
            state@ == (Persistence {
                session: session@,
                resume: resume_from,
                delay: INITIAL_RECONNECT_DELAY,
                recovers: false,
                token: None,
                input: request_input_lease,
                layout: request_layout_lease,
            }),
    {
        AttachmentLoop {
            session,
            resume_from,
            reconnect_delay: INITIAL_RECONNECT_DELAY,
            recover_leases_after_connection_loss: false,
            attachment_token: None,
            request_input_lease,
            request_layout_lease,
        }
    }

    /// What to attach with, and the credential if an attachment is resumed.
    /// Command text is never asked for.
    pub fn request(&self, terminal_size: TerminalSize) -> (request: (AttachRequest, Option<String>))
        ensures
            request.0.session@ == self@.session,
            request.0.resume_from == self@.resume,
            request.0.terminal_size == terminal_size,
            request.0.request_input_lease == self@.input,
            request.0.request_layout_lease == self@.layout,
            !request.0.request_command_line,
            !request.0.request_running_command,
            request.0.presentation_window_bytes == DEFAULT_PRESENTATION_WINDOW_BYTES,
            optional(request.1) == self@.token,
    {
        (
            AttachRequest {
                session: self.session.clone(),
                resume_from: self.resume_from,
                terminal_size,
                request_input_lease: self.request_input_lease,
                request_layout_lease: self.request_layout_lease,
                request_command_line: false,
                request_running_command: false,
                presentation_window_bytes: DEFAULT_PRESENTATION_WINDOW_BYTES,
            },
            self.attachment_token.clone(),
        )
    }

    /// Waits once more.
    fn wait(&mut self) -> (step: LoopStep)
        requires
            old(self)@.wf(),
        ensures
            final(self)@.wf(),
            final(self)@ == old(self)@.waited(),
            step == LoopStep::Wait(old(self)@.delay),
    {
        let delay: u64 = self.reconnect_delay;
        self.reconnect_delay = if delay > MAX_RECONNECT_DELAY / 2 {
            MAX_RECONNECT_DELAY
        } else {
            delay * 2
        };
        LoopStep::Wait(delay)
    }

    /// Takes in that the daemon could not be reached.
    pub fn connection_failed(&mut self, retryable: bool) -> (step: LoopStep)
        requires
            old(self)@.wf(),
        ensures
            final(self)@.wf(),
            if retryable {
                step == LoopStep::Wait(old(self)@.delay) && final(self)@ == old(self)@.waited()
            } else {
                step == LoopStep::Fail && final(self)@ == old(self)@
            },
    {
        if retryable {
            self.wait()
        } else {
            LoopStep::Fail
        }
    }

    /// Takes in that attaching failed. A credential that is not accepted any
    /// more is forgotten: the next attachment is a new one, which may claim
    /// the leases that the old one had.
    pub fn attach_failed(&mut self, error: &ClientError) -> (step: LoopStep)
        requires
            old(self)@.wf(),
        ensures
            final(self)@.wf(),
            match *error {
                ClientError::Server { code: ErrorCode::AttachmentResumeRejected, .. } => {
                    &&& step == LoopStep::Again
                    &&& final(self)@ == (Persistence { token: None, recovers: true, ..old(self)@ })
                },
                _ => if may_retry(*error) {
                    step == LoopStep::Wait(old(self)@.delay) && final(self)@ == old(self)@.waited()
                } else {
                    step == LoopStep::Fail && final(self)@ == old(self)@
                },
            },
    {
        if let ClientError::Server { code, .. } = error {
            if *code == ErrorCode::AttachmentResumeRejected {
                self.attachment_token = None;
                self.recover_leases_after_connection_loss = true;
                return LoopStep::Again;
            }
        }
        if is_retryable_protocol_error(error) {
            return self.wait();
        }
        LoopStep::Fail
    }

    /// Takes in that attaching worked. Returns which leases to claim again:
    /// only those that were asked for, were lost and are not owned.
    pub fn attached(&mut self, attached: &AttachedSession) -> (options: InteractiveAttachOptions)
        requires
            old(self)@.wf(),
        ensures
            final(self)@.wf(),
            final(self)@ == (Persistence {
                token: Some(attached.attachment_token@),
                delay: INITIAL_RECONNECT_DELAY,
                ..old(self)@
            }),
            ({
                let start = old(self)@;
                let layout = start.recovers && start.layout
                    && !attached.layout_lease.owned_by_client;
                options == (InteractiveAttachOptions {
                    reacquire_input_lease: start.recovers && start.input
                        && !attached.input_lease.owned_by_client,
                    reacquire_layout_lease: layout,
                    resize_after_layout_reacquire: layout,
                })
            }),
    {
        self.attachment_token = Some(attached.attachment_token.clone());
        self.reconnect_delay = INITIAL_RECONNECT_DELAY;
        if !self.recover_leases_after_connection_loss {
            return InteractiveAttachOptions::default();
        }
        InteractiveAttachOptions {
            reacquire_input_lease: self.request_input_lease
                && !attached.input_lease.owned_by_client,
            reacquire_layout_lease: self.request_layout_lease
                && !attached.layout_lease.owned_by_client,
            resize_after_layout_reacquire: self.request_layout_lease
                && !attached.layout_lease.owned_by_client,
        }
    }

    /// Takes in how an attachment ended. After a lost connection the next one
    /// resumes at what was presented.
    pub fn exited(&mut self, exit: AttachExit) -> (step: LoopStep)
        requires
            old(self)@.wf(),
        ensures
            final(self)@.wf(),
            match exit.reason {
                AttachExitReason::Detached => step == LoopStep::Detached && final(self)@ == old(
                    self,
                )@,
                AttachExitReason::SessionEnded { exit_code } => step == LoopStep::Ended(exit_code)
                    && final(self)@ == old(self)@,
                AttachExitReason::ConnectionClosed => {
                    &&& step == LoopStep::Wait(old(self)@.delay)
                    &&& final(self)@ == (Persistence {
                        resume: exit.next_sequence,
                        recovers: true,
                        ..old(self)@
                    }).waited()
                },
            },
    {
        match exit.reason {
            AttachExitReason::Detached => LoopStep::Detached,
            AttachExitReason::SessionEnded { exit_code } => LoopStep::Ended(exit_code),
            AttachExitReason::ConnectionClosed => {
                self.resume_from = exit.next_sequence;
                self.recover_leases_after_connection_loss = true;
                self.wait()
            },
        }
    }

    /// Takes in that an attachment broke off with an error.
    pub fn broke_off(&mut self, error: &ClientError) -> (step: LoopStep)
        requires
            old(self)@.wf(),
        ensures
            final(self)@.wf(),
            if may_retry(*error) {
                &&& step == LoopStep::Wait(old(self)@.delay)
                &&& final(self)@ == (Persistence { recovers: true, ..old(self)@ }).waited()
            } else {
                step == LoopStep::Fail && final(self)@ == old(self)@
            },
    {
        if is_retryable_protocol_error(error) {
            self.recover_leases_after_connection_loss = true;
            return self.wait();
        }
        LoopStep::Fail
    }
}

/// The waits grow by doubling and never exceed five seconds.
pub proof fn waits_are_bounded(state: Persistence, count: nat)
    requires
        state.wf(),
    ensures
        waited_times(state, count).wf(),
        waited_times(state, count).delay >= state.delay,
        waited_times(state, count).resume == state.resume,
        waited_times(state, count).token == state.token,
        count >= 5 ==> waited_times(state, count).delay == MAX_RECONNECT_DELAY,
    decreases count,
{
    if count > 0 {
        waits_are_bounded(state, (count - 1) as nat);
        if count == 5 {
            reveal_with_fuel(waited_times, 6);
        }
    }
}

/// The state after so many waits.
pub open spec fn waited_times(state: Persistence, count: nat) -> Persistence
    decreases count,
{
    if count == 0 {
        state
    } else {
        waited_times(state, (count - 1) as nat).waited()
    }
}

/// What a user is told before a wait.
pub fn reconnect_notice(status_prefix: &str, reason: &str, delay: u64) -> (notice: String)
    ensures
        notice@ == status_prefix@ + ": connection interrupted ("@ + reason@
            + "); reconnecting in "@ + decimal(delay as nat) + " ms"@,
{
    let mut notice = between(status_prefix, ": connection interrupted (", reason);
    notice.append("); reconnecting in ");
    notice.append(decimal_text(delay).as_str());
    notice.append(" ms");
    notice
}

/// Why a connection that closed is waited for.
pub fn closed_reason(connection_kind: &str) -> (reason: String)
    ensures
        reason@ == connection_kind@ + " connection closed"@,
{
    prefixed(connection_kind, " connection closed")
}

/// What a user is told after detaching.
pub fn detached_notice(status_prefix: &str, label: &str, session: &str) -> (notice: String)
    ensures
        notice@ == status_prefix@ + ": detached from "@ + label@ + ":"@ + session@,
{
    let mut notice = between(status_prefix, ": detached from ", label);
    notice.append(":");
    notice.append(session);
    notice
}

/// What a user is told when the session ended.
pub fn ended_notice(status_prefix: &str, label: &str, session: &str, exit_code: Option<u32>) -> (
    notice: String)
    ensures
        notice@ == status_prefix@ + ": "@ + label@ + ":"@ + session@ + " ended with exit code "@
            + exit_words(exit_code) + "; not reconnecting"@,
{
    let mut notice = between(status_prefix, ": ", label);
    notice.append(":");
    notice.append(session);
    notice.append(" ended with exit code ");
    notice.append(exit_text(exit_code).as_str());
    notice.append("; not reconnecting");
    notice
}

/// What is printed of a session that was created.
pub fn created_line(session: &SessionInfo) -> (line: String)
    ensures
        line@ == session.session_id@ + "\t"@ + session.name@,
{
    between(session.session_id.as_str(), "\t", session.name.as_str())
}

pub open spec fn status_words(status: SessionStatus) -> Seq<char> {
    match status {
        SessionStatus::Running => "Running"@,
        SessionStatus::Exited => "Exited"@,
    }
}

/// What is printed of a listed session.
pub open spec fn session_words(session: SessionInfo) -> Seq<char> {
    session.name@ + "\t"@ + session.session_id@ + "\t"@ + status_words(session.status) + "\t"@
        + grid_words(session.terminal_size) + "\t"@ + decimal(session.next_sequence as nat)
}

pub fn session_line(session: &SessionInfo) -> (line: String)
    ensures
        line@ == session_words(*session),
{
    let mut line = between(session.name.as_str(), "\t", session.session_id.as_str());
    line.append("\t");
    line.append(
        match session.status {
            SessionStatus::Running => "Running",
            SessionStatus::Exited => "Exited",
        },
    );
    line.append("\t");
    line.append(grid_text(&session.terminal_size).as_str());
    line.append("\t");
    line.append(decimal_text(session.next_sequence).as_str());
    line
}

/// What is printed of a list of sessions.
pub fn list_lines(sessions: &Vec<SessionInfo>) -> (lines: Vec<String>)
    ensures
        if sessions@.len() == 0 {
            texts(lines@) == seq!["no sessions"@]
        } else {
            &&& lines@.len() == sessions@.len() + 1
            &&& lines@[0]@ == "NAME\tID\tSTATUS\tSIZE\tNEXT_SEQUENCE"@
            &&& forall|i: int|
                0 <= i < sessions@.len() ==> (#[trigger] lines@[i + 1])@ == session_words(
                    sessions@[i],
                )
        },
{
    let mut lines: Vec<String> = Vec::new();
    if sessions.len() == 0 {
        lines.push("no sessions".to_owned());
        assert(texts(lines@) =~= seq!["no sessions"@]);
        return lines;
    }
    lines.push("NAME\tID\tSTATUS\tSIZE\tNEXT_SEQUENCE".to_owned());
    let mut index: usize = 0;
    while index < sessions.len()
        invariant
            index <= sessions@.len(),
            lines@.len() == index + 1,
            lines@[0]@ == "NAME\tID\tSTATUS\tSIZE\tNEXT_SEQUENCE"@,
            forall|i: int|
                0 <= i < index ==> (#[trigger] lines@[i + 1])@ == session_words(sessions@[i]),
        decreases sessions@.len() - index,
    {
        lines.push(session_line(&sessions[index]));
        index += 1;
    }
    lines
}

pub open spec fn shell_type_words(shell_type: ShellType) -> Seq<char> {
    match shell_type {
        ShellType::Bash => "bash"@,
        ShellType::Fish => "fish"@,
        ShellType::Pwsh => "pwsh"@,
        ShellType::Zsh => "zsh"@,
        ShellType::Cmd => "cmd"@,
        ShellType::Sh => "sh"@,
        ShellType::Unknown => "unknown"@,
    }
}

pub fn shell_type_name(shell_type: ShellType) -> (name: &'static str)
    ensures
        name@ == shell_type_words(shell_type),
{
    match shell_type {
        ShellType::Bash => "bash",
        ShellType::Fish => "fish",
        ShellType::Pwsh => "pwsh",
        ShellType::Zsh => "zsh",
        ShellType::Cmd => "cmd",
        ShellType::Sh => "sh",
        ShellType::Unknown => "unknown",
    }
}

pub open spec fn prompt_phase_words(prompt_phase: PromptPhase) -> Seq<char> {
    match prompt_phase {
        PromptPhase::Unknown => "unknown"@,
        PromptPhase::AtPrompt => "at_prompt"@,
        PromptPhase::Editing => "editing"@,
        PromptPhase::Running => "running"@,
    }
}

pub fn prompt_phase_name(prompt_phase: PromptPhase) -> (name: &'static str)
    ensures
        name@ == prompt_phase_words(prompt_phase),
{
    match prompt_phase {
        PromptPhase::Unknown => "unknown",
        PromptPhase::AtPrompt => "at_prompt",
        PromptPhase::Editing => "editing",
        PromptPhase::Running => "running",
    }
}

pub open spec fn tui_hint_words(tui_hint: TuiHint) -> Seq<char> {
    match tui_hint {
        TuiHint::Unknown => "unknown"@,
        TuiHint::Inline => "inline"@,
        TuiHint::AlternateScreen => "alternate_screen"@,
    }
}

pub fn tui_hint_name(tui_hint: TuiHint) -> (name: &'static str)
    ensures
        name@ == tui_hint_words(tui_hint),
{
    match tui_hint {
        TuiHint::Unknown => "unknown",
        TuiHint::Inline => "inline",
        TuiHint::AlternateScreen => "alternate_screen",
    }
}

/// A hexadecimal digit.
pub open spec fn hex_digit(n: int) -> char {
    if n < 10 {
        ('0' as int + n) as char
    } else {
        ('a' as int + n - 10) as char
    }
}

/// A number in hexadecimal digits, without leading zeros.
pub open spec fn hexadecimal(n: nat) -> Seq<char>
    decreases n,
{
    if n < 16 {
        seq![hex_digit(n as int)]
    } else {
        hexadecimal(n / 16).push(hex_digit((n % 16) as int))
    }
}

/// A character as it is safe to print: control characters, quotes and whatever
/// is not plain ASCII are escaped.
pub open spec fn escaped_char(c: char) -> Seq<char> {
    if c == '\t' {
        seq!['\\', 't']
    } else if c == '\r' {
        seq!['\\', 'r']
    } else if c == '\n' {
        seq!['\\', 'n']
    } else if c == '\'' || c == '"' || c == '\\' {
        seq!['\\', c]
    } else if ' ' <= c <= '~' {
        seq![c]
    } else {
        seq!['\\', 'u', '{'] + hexadecimal(c as u32 as nat) + seq!['}']
    }
}

pub open spec fn escaped(text: Seq<char>) -> Seq<char>
    decreases text.len(),
{
    if text.len() == 0 {
        Seq::empty()
    } else {
        escaped(text.drop_last()) + escaped_char(text.last())
    }
}

fn push_hexadecimal(text: &mut String, n: u32)
    ensures
        final(text)@ == old(text)@ + hexadecimal(n as nat),
    decreases n,
{
    let ghost before = text@;
    if n >= 16 {
        push_hexadecimal(text, n / 16);
    }
    let digit: u32 = n % 16;
    let c: char = match digit {
        0 => '0',
        1 => '1',
        2 => '2',
        3 => '3',
        4 => '4',
        5 => '5',
        6 => '6',
        7 => '7',
        8 => '8',
        9 => '9',
        10 => 'a',
        11 => 'b',
        12 => 'c',
        13 => 'd',
        14 => 'e',
        _ => 'f',
    };
    assert(c == hex_digit(digit as int));
    text.push(c);
    assert(text@ =~= before + hexadecimal(n as nat));
}

pub fn escaped_for_terminal(value: &str) -> (text: String)
    ensures
        text@ == escaped(value@),
{
    proof {
        reveal_strlit("");
    }
    let chars = crate::text::chars_of(value);
    let mut text = "".to_owned();
    let mut index: usize = 0;
    assert(text@ =~= escaped(value@.take(0)));
    while index < chars.len()
        invariant
            index <= chars@.len(),
            chars@ == value@,
            text@ == escaped(value@.take(index as int)),
        decreases chars@.len() - index,
    {
        let c: char = chars[index];
        let ghost before = text@;
        if c == '\t' {
            text.push('\\');
            text.push('t');
        } else if c == '\r' {
            text.push('\\');
            text.push('r');
        } else if c == '\n' {
            text.push('\\');
            text.push('n');
        } else if c == '\'' || c == '"' || c == '\\' {
            text.push('\\');
            text.push(c);
        } else if ' ' <= c && c <= '~' {
            text.push(c);
        } else {
            text.push('\\');
            text.push('u');
            text.push('{');
            push_hexadecimal(&mut text, c as u32);
            text.push('}');
        }
        proof {
            assert(text@ =~= before + escaped_char(c));
            let taken = value@.take(index + 1);
            assert(taken.drop_last() =~= value@.take(index as int));
            assert(taken.last() == c);
        }
        index += 1;
    }
    assert(value@.take(index as int) =~= value@);
    text
}

/// Whether text is there, without what it says.
pub open spec fn disclosure(redacted: bool, present: bool) -> Seq<char> {
    if redacted {
        "redacted"@
    } else if present {
        "available (not displayed)"@
    } else {
        "none"@
    }
}

fn disclose(redacted: bool, present: bool) -> (text: &'static str)
    ensures
        text@ == disclosure(redacted, present),
{
    if redacted {
        "redacted"
    } else if present {
        "available (not displayed)"
    } else {
        "none"
    }
}

/// What is printed of a shell state: everything but the command text.
pub open spec fn state_report(name: Seq<char>, shell: ShellState) -> Seq<Seq<char>> {
    let cwd = match (shell.cwd_display, shell.cwd) {
        (Some(display), _) => escaped(display@),
        (None, Some(directory)) => escaped(directory@),
        (None, None) => "-"@,
    };
    seq![
        "SESSION\t"@ + name,
        "SHELL\t"@ + shell_type_words(shell.shell.shell_type),
        "CWD\t"@ + cwd,
        "PROMPT_PHASE\t"@ + prompt_phase_words(shell.prompt_phase),
        "TUI_HINT\t"@ + tui_hint_words(shell.tui_hint),
        "COMMAND_LINE\t"@ + disclosure(
            shell.command_line_redacted,
            shell.current_command_line is Some,
        ),
        "RUNNING_COMMAND\t"@ + disclosure(
            shell.running_command_redacted,
            shell.running_command is Some,
        ),
        "REVISION\t"@ + decimal(shell.revision as nat),
        "OBSERVED_SEQUENCE\t"@ + decimal(shell.observed_sequence as nat),
    ]
}

pub fn state_lines(state: &SessionShellState) -> (lines: Vec<String>)
    ensures
        texts(lines@) == state_report(state.session.name@, state.shell_state),
{
    let shell = &state.shell_state;
    let mut lines: Vec<String> = Vec::new();
    lines.push(prefixed("SESSION\t", state.session.name.as_str()));
    lines.push(prefixed("SHELL\t", shell_type_name(shell.shell.shell_type)));
    let cwd = match shell.displayed_cwd() {
        Some(cwd) => escaped_for_terminal(cwd),
        None => "-".to_owned(),
    };
    lines.push(prefixed("CWD\t", cwd.as_str()));
    lines.push(prefixed("PROMPT_PHASE\t", prompt_phase_name(shell.prompt_phase)));
    lines.push(prefixed("TUI_HINT\t", tui_hint_name(shell.tui_hint)));
    lines.push(
        prefixed(
            "COMMAND_LINE\t",
            disclose(shell.command_line_redacted, shell.current_command_line.is_some()),
        ),
    );
    lines.push(
        prefixed(
            "RUNNING_COMMAND\t",
            disclose(shell.running_command_redacted, shell.running_command.is_some()),
        ),
    );
    lines.push(prefixed("REVISION\t", decimal_text(shell.revision).as_str()));
    lines.push(prefixed("OBSERVED_SEQUENCE\t", decimal_text(shell.observed_sequence).as_str()));
    assert(texts(lines@) =~= state_report(state.session.name@, state.shell_state));
    lines
}

/// What is printed of a shell state does not depend on the command text: two
/// states that differ in nothing else are printed alike.
pub proof fn printed_state_hides_command_text(name: Seq<char>, a: ShellState, b: ShellState)
    requires
        a.current_command_line is Some == b.current_command_line is Some,
        a.running_command is Some == b.running_command is Some,
        a == (ShellState {
            current_command_line: a.current_command_line,
            running_command: a.running_command,
            ..b
        }),
    ensures
        state_report(name, a) == state_report(name, b),
{
}

/// Only a lost connection is tried again: a daemon that answered, or input that
/// can never be read, is not.
pub proof fn only_lost_connections_are_retried(error: ClientError)
    ensures
        may_retry(error) ==> error is UnexpectedEof || error is Codec,
        error is Server || error is UnsupportedCheckpoint || error is UnexpectedResponse
            || error is InvalidOutputSequence || error is StaleCheckpoint ==> !may_retry(error),
        error is UnexpectedEof ==> may_retry(error),
        error matches ClientError::Codec(CodecError::Io(failure)) ==> (may_retry(error) <==>
            failure.kind != IoFailureKind::InvalidData && failure.kind
            != IoFailureKind::InvalidInput && failure.kind != IoFailureKind::PermissionDenied),
        error matches ClientError::Codec(cause) ==> (!(cause is Io) ==> !may_retry(error)),
{
}

/// Each wait is twice the one before, until the longest is reached.
pub proof fn each_wait_doubles(state: Persistence)
    ensures
        2 * state.delay <= MAX_RECONNECT_DELAY ==> state.waited().delay == 2 * state.delay,
        2 * state.delay > MAX_RECONNECT_DELAY ==> state.waited().delay == MAX_RECONNECT_DELAY,
        state.waited().session == state.session,
        state.waited().recovers == state.recovers,
        state.waited().input == state.input,
        state.waited().layout == state.layout,
{
}

/// The names that are printed for shells and phases are those by which they are
/// reported.
pub proof fn printed_names_are_those_reported(shell_type: ShellType, phase: PromptPhase)
    ensures
        crate::report::shell_named(shell_type_words(shell_type)) == Some(shell_type),
        crate::report::phase_named(prompt_phase_words(phase)) == Some(phase),
{
    crate::report::each_name_stands_for_one_thing(shell_type_words(shell_type));
    crate::report::each_name_stands_for_one_thing(prompt_phase_words(phase));
}

/// The flag that names a session counts before the position that names one.
pub proof fn the_flag_comes_first(target: Option<String>, session: Option<String>)
    ensures
        target is Some ==> chosen(target, session) == target,
        target is None ==> chosen(target, session) == session,
{
}

/// Whether a character can be printed anywhere.
pub open spec fn printable(c: char) -> bool {
    ' ' <= c <= '~'
}

proof fn hex_digit_facts(n: int)
    requires
        0 <= n < 16,
    ensures
        printable(hex_digit(n)),
        hex_digit(n) != '}',
        hex_digit(n) as int == if n < 10 {
            '0' as int + n
        } else {
            'a' as int + n - 10
        },
{
}

proof fn hexadecimal_facts(n: nat)
    ensures
        hexadecimal(n).len() > 0,
        n >= 16 ==> hexadecimal(n).len() > 1,
        forall|i: int|
            0 <= i < hexadecimal(n).len() ==> printable(#[trigger] hexadecimal(n)[i])
                && hexadecimal(n)[i] != '}',
    decreases n,
{
    if n < 16 {
        hex_digit_facts(n as int);
    } else {
        hexadecimal_facts(n / 16);
        hex_digit_facts((n % 16) as int);
        let head = hexadecimal(n / 16);
        assert forall|i: int| 0 <= i < hexadecimal(n).len() implies printable(
            #[trigger] hexadecimal(n)[i],
        ) && hexadecimal(n)[i] != '}' by {
            if i < head.len() {
                assert(hexadecimal(n)[i] == head[i]);
            }
        }
    }
}

proof fn hexadecimal_is_injective(a: nat, b: nat)
    requires
        hexadecimal(a) == hexadecimal(b),
    ensures
        a == b,
    decreases a,
{
    hexadecimal_facts(a);
    hexadecimal_facts(b);
    if a < 16 {
        hex_digit_facts(a as int);
        if b < 16 {
            hex_digit_facts(b as int);
            assert(hexadecimal(a)[0] == hex_digit(a as int));
            assert(hexadecimal(b)[0] == hex_digit(b as int));
        } else {
            assert(hexadecimal(a).len() == 1);
        }
    } else if b < 16 {
        assert(hexadecimal(b).len() == 1);
    } else {
        hex_digit_facts((a % 16) as int);
        hex_digit_facts((b % 16) as int);
        let x = hexadecimal(a / 16);
        let y = hexadecimal(b / 16);
        assert(hexadecimal(a).drop_last() =~= x);
        assert(hexadecimal(b).drop_last() =~= y);
        assert(hexadecimal(a).last() == hex_digit((a % 16) as int));
        assert(hexadecimal(b).last() == hex_digit((b % 16) as int));
        hexadecimal_is_injective(a / 16, b / 16);
        assert(a % 16 == b % 16);
    }
}

/// What is printed of a text holds printable characters only.
pub proof fn escaped_text_is_printable(text: Seq<char>)
    ensures
        forall|i: int| 0 <= i < escaped(text).len() ==> printable(#[trigger] escaped(text)[i]),
    decreases text.len(),
{
    if text.len() > 0 {
        escaped_text_is_printable(text.drop_last());
        hexadecimal_facts(text.last() as u32 as nat);
        let head = escaped(text.drop_last());
        let own = escaped_char(text.last());
        let digits = hexadecimal(text.last() as u32 as nat);
        assert forall|i: int| 0 <= i < own.len() implies printable(#[trigger] own[i]) by {
            if own.len() > 2 && 3 <= i < own.len() - 1 {
                assert(own[i] == digits[i - 3]);
            }
        }
        assert forall|i: int| 0 <= i < escaped(text).len() implies printable(
            #[trigger] escaped(text)[i],
        ) by {
            if i < head.len() {
                assert(escaped(text)[i] == head[i]);
            } else {
                assert(escaped(text)[i] == own[i - head.len()]);
            }
        }
    }
}

/// Whether an escaped character is written as a number.
spec fn numbered(c: char) -> bool {
    !printable(c) && c != '\t' && c != '\r' && c != '\n'
}

/// What begins with an escaped character begins with no other one.
proof fn escapes_differ(a: char, b: char, x: Seq<char>, y: Seq<char>)
    requires
        escaped_char(a) + x == escaped_char(b) + y,
    ensures
        a == b,
        x == y,
{
    let one = escaped_char(a);
    let two = escaped_char(b);
    let whole = one + x;
    assert(whole == two + y);
    let m = hexadecimal(a as u32 as nat);
    let n = hexadecimal(b as u32 as nat);
    hexadecimal_facts(a as u32 as nat);
    hexadecimal_facts(b as u32 as nat);
    assert(whole[0] == one[0] && whole[0] == two[0]);
    if one.len() > 1 {
        assert(whole[1] == one[1]);
    }
    if two.len() > 1 {
        assert(whole[1] == two[1]);
    }
    if numbered(a) && numbered(b) {
        if m.len() < n.len() {
            assert(whole[3int + m.len()] == one[3int + m.len()]);
            assert(whole[3int + m.len()] == two[3int + m.len()]);
            assert(two[3int + m.len()] == n[m.len() as int]);
        } else if n.len() < m.len() {
            assert(whole[3int + n.len()] == two[3int + n.len()]);
            assert(whole[3int + n.len()] == one[3int + n.len()]);
            assert(one[3int + n.len()] == m[n.len() as int]);
        }
        assert(m.len() == n.len());
        assert forall|i: int| 0 <= i < m.len() implies m[i] == n[i] by {
            assert(whole[3 + i] == one[3 + i]);
            assert(whole[3 + i] == two[3 + i]);
            assert(one[3 + i] == m[i] && two[3 + i] == n[i]);
        }
        assert(m =~= n);
        hexadecimal_is_injective(a as u32 as nat, b as u32 as nat);
        assert(a == b);
    }
    assert(a == b);
    assert(whole.skip(one.len() as int) =~= x);
    assert((two + y).skip(two.len() as int) =~= y);
}

proof fn escaped_from_the_front(c: char, rest: Seq<char>)
    ensures
        escaped(seq![c] + rest) == escaped_char(c) + escaped(rest),
    decreases rest.len(),
{
    let text = seq![c] + rest;
    if rest.len() == 0 {
        assert(text =~= seq![c]);
        assert(text.drop_last() =~= Seq::empty());
        assert(escaped(Seq::<char>::empty()) =~= Seq::empty());
        assert(escaped(text) =~= escaped_char(c) + escaped(rest));
    } else {
        escaped_from_the_front(c, rest.drop_last());
        assert(text.drop_last() =~= seq![c] + rest.drop_last());
        assert(text.last() == rest.last());
        assert(escaped(text) =~= escaped_char(c) + (escaped(rest.drop_last()) + escaped_char(
            rest.last(),
        )));
    }
}

/// Different texts are printed differently: what is printed tells exactly what
/// the text was.
pub proof fn escaping_hides_nothing(a: Seq<char>, b: Seq<char>)
    requires
        escaped(a) == escaped(b),
    ensures
        a == b,
    decreases a.len(),
{
    if a.len() > 0 {
        let rest = a.skip(1);
        assert(seq![a[0]] + rest =~= a);
        escaped_from_the_front(a[0], rest);
        if b.len() == 0 {
            assert(escaped(b).len() == 0);
            assert(escaped_char(a[0]).len() > 0);
        } else {
            let tail = b.skip(1);
            assert(seq![b[0]] + tail =~= b);
            escaped_from_the_front(b[0], tail);
            escapes_differ(a[0], b[0], escaped(rest), escaped(tail));
            escaping_hides_nothing(rest, tail);
        }
    } else if b.len() > 0 {
        let tail = b.skip(1);
        assert(seq![b[0]] + tail =~= b);
        escaped_from_the_front(b[0], tail);
        assert(escaped_char(b[0]).len() > 0);
    }
}

/// Without a target a client goes to the session that was created last of those
/// that run, the first listed where several were created at once; there is at
/// most one such session.
pub proof fn the_newest_session_is_one(sessions: Seq<SessionInfo>, a: int, b: int)
    requires
        is_newest(sessions, a),
    ensures
        sessions[a].status == SessionStatus::Running,
        is_newest(sessions, b) ==> a == b,
        0 <= b < sessions.len() && sessions[b].status == SessionStatus::Running
            ==> sessions[b].created_at_ms <= sessions[a].created_at_ms,
        0 <= b < a && sessions[b].status == SessionStatus::Running ==> sessions[b].created_at_ms
            < sessions[a].created_at_ms,
{
}

/// A name means the first session that bears it.
pub proof fn the_first_of_a_name_is_meant(
    sessions: Seq<SessionInfo>,
    name: Seq<char>,
    a: int,
    b: int,
)
    requires
        first_named(sessions, name, a),
    ensures
        sessions[a].name@ == name,
        0 <= b < sessions.len() && sessions[b].name@ == name ==> a <= b,
        first_named(sessions, name, b) ==> a == b,
{
}

} // verus!
