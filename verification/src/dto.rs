//! What the graphical client is told, in values that survive its number type:
//! 64-bit numbers are decimal texts and bytes are base64 texts.
use vstd::prelude::*;
use vstd::string::*;
use vstd::utf8::encode_utf8;

use crate::base64::{
    base64_bytes, base64_text, decode_base64, encode_base64, MAX_ENCODED_BYTES,
};
use crate::client::{
    AttachRequest, AttachedSession, ClientError, ClientIdentity, DEFAULT_PRESENTATION_WINDOW_BYTES,
};
use crate::controller::{AttachExit, AttachExitReason, PresentationAck};
use crate::proto::{
    ClientMessage, ErrorCode, LeaseKind, LeaseStatus, PromptPhase, ServerMessage, SessionInfo,
    SessionStatus, ShellState, ShellType, TerminalCheckpoint, TerminalSize, TuiHint,
};
use crate::text::{
    a_number_has_no_problem, between, decimal, decimal_text, find_number_problem, number_problem,
    optional, parse_number, parsed_number, prefixed, same_text, NumberProblem,
};

verus! {

/// The most bytes that one command may write to a terminal.
pub const MAX_INPUT_BYTES: usize = 1_048_576;

/// Why a command of the graphical client failed.
#[derive(Debug, PartialEq, Eq)]
pub struct CommandErrorDto {
    pub code: String,
    pub message: String,
}

impl CommandErrorDto {
    /// Whether the error has this code and text.
    pub open spec fn says(self, code: Seq<char>, message: Seq<char>) -> bool {
        self.code@ == code && self.message@ == message
    }

    pub fn new(code: &str, message: &str) -> (error: Self)
        ensures
            error.says(code@, message@),
    {
        CommandErrorDto { code: code.to_owned(), message: message.to_owned() }
    }

    /// An error of the parts behind the graphical client, in their words.
    pub fn backend(error: &str) -> (result: Self)
        ensures
            result.says("backend_error"@, error@),
    {
        CommandErrorDto::new("backend_error", error)
    }

    /// An error of the session protocol: what the daemon said keeps its code.
    /// `shown` is how an unexpected response is shown.
    pub fn client(error: ClientError, shown: &str) -> (result: Self)
        ensures
            match error {
                ClientError::Server { code, message } => result.says(
                    protocol_error_words(code),
                    message@,
                ),
                _ => result.says("backend_error"@, error.text(shown@)),
            },
    {
        match error {
            ClientError::Server { code, message } => CommandErrorDto::new(
                protocol_error_code(&code),
                message.as_str(),
            ),
            error => CommandErrorDto::backend(error.message(shown).as_str()),
        }
    }
}

pub open spec fn protocol_error_words(code: ErrorCode) -> Seq<char> {
    match code {
        ErrorCode::InvalidRequest => "invalid_request"@,
        ErrorCode::InvalidSessionName => "invalid_session_name"@,
        ErrorCode::ProtocolVersionMismatch => "protocol_version_mismatch"@,
        ErrorCode::SequenceAhead => "sequence_ahead"@,
        ErrorCode::SessionAlreadyExists => "session_already_exists"@,
        ErrorCode::SessionNotFound => "session_not_found"@,
        ErrorCode::AttachmentResumeRejected => "attachment_resume_rejected"@,
        ErrorCode::InputLeaseRequired => "input_lease_required"@,
        ErrorCode::LayoutLeaseRequired => "layout_lease_required"@,
        ErrorCode::Internal => "internal"@,
    }
}

/// The stable name of a protocol error.
pub fn protocol_error_code(code: &ErrorCode) -> (name: &'static str)
    ensures
        name@ == protocol_error_words(*code),
{
    match code {
        ErrorCode::InvalidRequest => "invalid_request",
        ErrorCode::InvalidSessionName => "invalid_session_name",
        ErrorCode::ProtocolVersionMismatch => "protocol_version_mismatch",
        ErrorCode::SequenceAhead => "sequence_ahead",
        ErrorCode::SessionAlreadyExists => "session_already_exists",
        ErrorCode::SessionNotFound => "session_not_found",
        ErrorCode::AttachmentResumeRejected => "attachment_resume_rejected",
        ErrorCode::InputLeaseRequired => "input_lease_required",
        ErrorCode::LayoutLeaseRequired => "layout_lease_required",
        ErrorCode::Internal => "internal",
    }
}

#[derive(Debug, Clone, Copy, PartialEq, Eq, Structural)]
pub struct TerminalSizeDto {
    pub columns: u16,
    pub rows: u16,
    pub pixel_width: Option<u16>,
    pub pixel_height: Option<u16>,
}

impl TerminalSizeDto {
    /// A size for the daemon; a grid without cells is refused.
    pub fn into_proto(self) -> (result: Result<TerminalSize, CommandErrorDto>)
        ensures
            match result {
                Ok(size) => self.columns > 0 && self.rows > 0 && size == (TerminalSize {
                    columns: self.columns,
                    rows: self.rows,
                    pixel_width: match self.pixel_width {
                        Some(width) => width,
                        None => 0,
                    },
                    pixel_height: match self.pixel_height {
                        Some(height) => height,
                        None => 0,
                    },
                }),
                Err(error) => (self.columns == 0 || self.rows == 0) && error.says(
                    "invalid_terminal_size"@,
                    "terminal columns and rows must be greater than zero"@,
                ),
            },
    {
        if self.columns == 0 || self.rows == 0 {
            return Err(
                CommandErrorDto::new(
                    "invalid_terminal_size",
                    "terminal columns and rows must be greater than zero",
                ),
            );
        }
        Ok(
            TerminalSize {
                columns: self.columns,
                rows: self.rows,
                pixel_width: match self.pixel_width {
                    Some(width) => width,
                    None => 0,
                },
                pixel_height: match self.pixel_height {
                    Some(height) => height,
                    None => 0,
                },
            },
        )
    }

    /// A size as the client sees it: unknown pixels are left out.
    pub open spec fn of(value: TerminalSize) -> TerminalSizeDto {
        TerminalSizeDto {
            columns: value.columns,
            rows: value.rows,
            pixel_width: if value.pixel_width != 0 {
                Some(value.pixel_width)
            } else {
                None
            },
            pixel_height: if value.pixel_height != 0 {
                Some(value.pixel_height)
            } else {
                None
            },
        }
    }

    pub fn from_proto(value: TerminalSize) -> (dto: Self)
        ensures
            dto == TerminalSizeDto::of(value),
    {
        TerminalSizeDto {
            columns: value.columns,
            rows: value.rows,
            pixel_width: if value.pixel_width != 0 {
                Some(value.pixel_width)
            } else {
                None
            },
            pixel_height: if value.pixel_height != 0 {
                Some(value.pixel_height)
            } else {
                None
            },
        }
    }
}

/// A size survives the way to the client and back.
pub proof fn sizes_come_back(size: TerminalSize)
    ensures
        ({
            let dto = TerminalSizeDto::of(size);
            &&& dto.columns == size.columns
            &&& dto.rows == size.rows
            &&& size.pixel_width == match dto.pixel_width {
                Some(width) => width,
                None => 0,
            }
            &&& size.pixel_height == match dto.pixel_height {
                Some(height) => height,
                None => 0,
            }
        }),
{
}

#[derive(Debug, Clone, Copy, PartialEq, Eq, Structural)]
pub enum SessionStatusDto {
    Running,
    Exited,
}

impl SessionStatusDto {
    pub open spec fn of(value: SessionStatus) -> SessionStatusDto {
        match value {
            SessionStatus::Running => SessionStatusDto::Running,
            SessionStatus::Exited => SessionStatusDto::Exited,
        }
    }

    pub fn from_proto(value: SessionStatus) -> (dto: Self)
        ensures
            dto == SessionStatusDto::of(value),
    {
        match value {
            SessionStatus::Running => SessionStatusDto::Running,
            SessionStatus::Exited => SessionStatusDto::Exited,
        }
    }
}

#[derive(Debug, PartialEq, Eq)]
pub struct SessionDto {
    pub session_id: String,
    pub name: String,
    pub status: SessionStatusDto,
    pub next_sequence: String,
    pub terminal_size: TerminalSizeDto,
}

impl SessionDto {
    /// Whether this describes a session.
    pub open spec fn is_of(self, value: SessionInfo) -> bool {
        &&& self.session_id@ == value.session_id@
        &&& self.name@ == value.name@
        &&& self.status == SessionStatusDto::of(value.status)
        &&& self.next_sequence@ == decimal(value.next_sequence as nat)
        &&& self.terminal_size == TerminalSizeDto::of(value.terminal_size)
    }

    pub fn from_proto(value: SessionInfo) -> (dto: Self)
        ensures
            dto.is_of(value),
    {
        SessionDto {
            session_id: value.session_id,
            name: value.name,
            status: SessionStatusDto::from_proto(value.status),
            next_sequence: decimal_text(value.next_sequence),
            terminal_size: TerminalSizeDto::from_proto(value.terminal_size),
        }
    }
}

#[derive(Debug, Clone, Copy, PartialEq, Eq, Structural)]
pub enum LeaseKindDto {
    Input,
    Layout,
}

impl LeaseKindDto {
    pub open spec fn of(value: LeaseKind) -> LeaseKindDto {
        match value {
            LeaseKind::Input => LeaseKindDto::Input,
            LeaseKind::Layout => LeaseKindDto::Layout,
        }
    }

    pub fn from_proto(value: LeaseKind) -> (dto: Self)
        ensures
            dto == LeaseKindDto::of(value),
    {
        match value {
            LeaseKind::Input => LeaseKindDto::Input,
            LeaseKind::Layout => LeaseKindDto::Layout,
        }
    }

    pub fn into_proto(self) -> (lease: LeaseKind)
        ensures
            LeaseKindDto::of(lease) == self,
    {
        match self {
            LeaseKindDto::Input => LeaseKind::Input,
            LeaseKindDto::Layout => LeaseKind::Layout,
        }
    }
}

#[derive(Debug, Clone, Copy, PartialEq, Eq, Structural)]
pub struct LeaseStatusDto {
    pub held: bool,
    pub owned_by_client: bool,
}

impl LeaseStatusDto {
    pub open spec fn of(value: LeaseStatus) -> LeaseStatusDto {
        LeaseStatusDto { held: value.held, owned_by_client: value.owned_by_client }
    }

    pub fn from_proto(value: LeaseStatus) -> (dto: Self)
        ensures
            dto == LeaseStatusDto::of(value),
    {
        LeaseStatusDto { held: value.held, owned_by_client: value.owned_by_client }
    }
}

#[derive(Debug, Clone, Copy, PartialEq, Eq, Structural)]
pub enum ShellTypeDto {
    Bash,
    Fish,
    Pwsh,
    Zsh,
    Cmd,
    Sh,
    Unknown,
}

impl ShellTypeDto {
    pub open spec fn of(value: ShellType) -> ShellTypeDto {
        match value {
            ShellType::Bash => ShellTypeDto::Bash,
            ShellType::Fish => ShellTypeDto::Fish,
            ShellType::Pwsh => ShellTypeDto::Pwsh,
            ShellType::Zsh => ShellTypeDto::Zsh,
            ShellType::Cmd => ShellTypeDto::Cmd,
            ShellType::Sh => ShellTypeDto::Sh,
            ShellType::Unknown => ShellTypeDto::Unknown,
        }
    }

    pub fn from_proto(value: ShellType) -> (dto: Self)
        ensures
            dto == ShellTypeDto::of(value),
    {
        match value {
            ShellType::Bash => ShellTypeDto::Bash,
            ShellType::Fish => ShellTypeDto::Fish,
            ShellType::Pwsh => ShellTypeDto::Pwsh,
            ShellType::Zsh => ShellTypeDto::Zsh,
            ShellType::Cmd => ShellTypeDto::Cmd,
            ShellType::Sh => ShellTypeDto::Sh,
            ShellType::Unknown => ShellTypeDto::Unknown,
        }
    }
}

#[derive(Debug, Clone, Copy, PartialEq, Eq, Structural)]
pub enum PromptPhaseDto {
    Unknown,
    AtPrompt,
    Editing,
    Running,
}

impl PromptPhaseDto {
    pub open spec fn of(value: PromptPhase) -> PromptPhaseDto {
        match value {
            PromptPhase::Unknown => PromptPhaseDto::Unknown,
            PromptPhase::AtPrompt => PromptPhaseDto::AtPrompt,
            PromptPhase::Editing => PromptPhaseDto::Editing,
            PromptPhase::Running => PromptPhaseDto::Running,
        }
    }

    pub fn from_proto(value: PromptPhase) -> (dto: Self)
        ensures
            dto == PromptPhaseDto::of(value),
    {
        match value {
            PromptPhase::Unknown => PromptPhaseDto::Unknown,
            PromptPhase::AtPrompt => PromptPhaseDto::AtPrompt,
            PromptPhase::Editing => PromptPhaseDto::Editing,
            PromptPhase::Running => PromptPhaseDto::Running,
        }
    }
}

#[derive(Debug, Clone, Copy, PartialEq, Eq, Structural)]
pub enum TuiHintDto {
    Unknown,
    Inline,
    AlternateScreen,
}

impl TuiHintDto {
    pub open spec fn of(value: TuiHint) -> TuiHintDto {
        match value {
            TuiHint::Unknown => TuiHintDto::Unknown,
            TuiHint::Inline => TuiHintDto::Inline,
            TuiHint::AlternateScreen => TuiHintDto::AlternateScreen,
        }
    }

    pub fn from_proto(value: TuiHint) -> (dto: Self)
        ensures
            dto == TuiHintDto::of(value),
    {
        match value {
            TuiHint::Unknown => TuiHintDto::Unknown,
            TuiHint::Inline => TuiHintDto::Inline,
            TuiHint::AlternateScreen => TuiHintDto::AlternateScreen,
        }
    }
}

/// Privacy-preserving shell state for the status bar.
///
/// Command text is deliberately absent, and the editable command line is never
/// requested from the daemon.
#[derive(Debug, PartialEq, Eq)]
pub struct ShellStateDto {
    pub revision: String,
    pub observed_sequence: String,
    pub shell_type: ShellTypeDto,
    pub cwd: Option<String>,
    pub prompt_phase: PromptPhaseDto,
    pub tui_hint: TuiHintDto,
}

impl ShellStateDto {
    /// Whether this describes a shell state.
    pub open spec fn is_of(self, value: ShellState) -> bool {
        &&& self.revision@ == decimal(value.revision as nat)
        &&& self.observed_sequence@ == decimal(value.observed_sequence as nat)
        &&& self.shell_type == ShellTypeDto::of(value.shell.shell_type)
        &&& optional(self.cwd) == optional(value.cwd)
        &&& self.prompt_phase == PromptPhaseDto::of(value.prompt_phase)
        &&& self.tui_hint == TuiHintDto::of(value.tui_hint)
    }

    pub fn from_proto(value: ShellState) -> (dto: Self)
        ensures
            dto.is_of(value),
    {
        ShellStateDto {
            revision: decimal_text(value.revision),
            observed_sequence: decimal_text(value.observed_sequence),
            shell_type: ShellTypeDto::from_proto(value.shell.shell_type),
            cwd: value.cwd,
            prompt_phase: PromptPhaseDto::from_proto(value.prompt_phase),
            tui_hint: TuiHintDto::from_proto(value.tui_hint),
        }
    }
}

/// What the client is told of a shell does not depend on its command text.
pub proof fn command_text_is_never_told(dto: ShellStateDto, a: ShellState, b: ShellState)
    requires
        dto.is_of(a),
        a == (ShellState {
            command_line_redacted: a.command_line_redacted,
            current_command_line: a.current_command_line,
            running_command_redacted: a.running_command_redacted,
            running_command: a.running_command,
            ..b
        }),
    ensures
        dto.is_of(b),
{
}

#[derive(Debug, PartialEq, Eq)]
pub struct CreateSessionRequestDto {
    pub name: Option<String>,
    pub working_directory: Option<String>,
    pub terminal_size: TerminalSizeDto,
}

#[derive(Debug, PartialEq, Eq)]
pub struct OpenAttachmentRequestDto {
    pub session: String,
    pub terminal_size: TerminalSizeDto,
    pub resume_from: Option<String>,
    pub request_input_lease: bool,
    pub request_layout_lease: bool,
}

#[derive(Debug, PartialEq, Eq)]
pub struct OpenAttachmentResponseDto {
    pub attachment_id: String,
    pub session: SessionDto,
    pub replay_from: String,
    pub history_gap: bool,
    pub terminal_size_mismatch: bool,
    pub input_lease: LeaseStatusDto,
    pub layout_lease: LeaseStatusDto,
    pub shell_state: ShellStateDto,
}

impl OpenAttachmentResponseDto {
    pub fn new(attachment_id: String, attached: &AttachedSession) -> (dto: Self)
        ensures
            dto.attachment_id@ == attachment_id@,
            dto.session.is_of(attached.session),
            dto.replay_from@ == decimal(attached.replay_from as nat),
            dto.history_gap == attached.history_gap,
            dto.terminal_size_mismatch == attached.terminal_size_mismatch,
            dto.input_lease == LeaseStatusDto::of(attached.input_lease),
            dto.layout_lease == LeaseStatusDto::of(attached.layout_lease),
            dto.shell_state.is_of(attached.shell_state),
    {
        OpenAttachmentResponseDto {
            attachment_id,
            session: SessionDto::from_proto(attached.session.clone()),
            replay_from: decimal_text(attached.replay_from),
            history_gap: attached.history_gap,
            terminal_size_mismatch: attached.terminal_size_mismatch,
            input_lease: LeaseStatusDto::from_proto(attached.input_lease),
            layout_lease: LeaseStatusDto::from_proto(attached.layout_lease),
            shell_state: ShellStateDto::from_proto(attached.shell_state.clone()),
        }
    }
}

#[derive(Debug, PartialEq, Eq)]
pub struct AttachmentRequestDto {
    pub attachment_id: String,
}

#[derive(Debug, PartialEq, Eq)]
pub struct KillSessionRequestDto {
    pub session_id: String,
}

#[derive(Debug, PartialEq, Eq)]
pub struct SendInputRequestDto {
    pub attachment_id: String,
    pub data_base64: String,
}

#[derive(Debug, PartialEq, Eq)]
pub struct ResizeAttachmentRequestDto {
    pub attachment_id: String,
    pub terminal_size: TerminalSizeDto,
}

#[derive(Debug, PartialEq, Eq)]
pub struct AttachmentLeaseRequestDto {
    pub attachment_id: String,
    pub lease: LeaseKindDto,
}

#[derive(Debug, PartialEq, Eq)]
pub struct AcknowledgeAttachmentEventRequestDto {
    pub attachment_id: String,
    pub event_id: String,
}

/// What a new window starts with.
#[derive(Debug, PartialEq, Eq)]
pub struct WindowBootstrapDto {
    pub working_directory: String,
    pub terminal_size: TerminalSizeDto,
}

impl WindowBootstrapDto {
    /// Whether a window can start with this.
    pub fn check(&self) -> (result: Result<(), CommandErrorDto>)
        ensures
            match result {
                Ok(_) => {
                    &&& self.working_directory@.len() > 0
                    &&& self.terminal_size.columns > 0
                    &&& self.terminal_size.rows > 0
                },
                Err(error) => if self.working_directory@.len() == 0 {
                    error.says(
                        "working_directory_unavailable"@,
                        "the current session did not report a working directory"@,
                    )
                } else {
                    &&& self.terminal_size.columns == 0 || self.terminal_size.rows == 0
                    &&& error.says(
                        "invalid_terminal_size"@,
                        "terminal columns and rows must be greater than zero"@,
                    )
                },
            },
    {
        proof {
            reveal_strlit("");
            if self.working_directory@.len() == 0 {
                assert(self.working_directory@ =~= ""@);
            }
        }
        if same_text(self.working_directory.as_str(), "") {
            return Err(
                CommandErrorDto::new(
                    "working_directory_unavailable",
                    "the current session did not report a working directory",
                ),
            );
        }
        match self.terminal_size.into_proto() {
            Ok(_) => Ok(()),
            Err(error) => Err(error),
        }
    }
}

#[derive(Debug, PartialEq, Eq)]
pub struct TerminalCheckpointDto {
    pub format: String,
    pub format_version: u16,
    pub sequence: String,
    pub terminal_size: TerminalSizeDto,
    pub payload_base64: String,
    pub input_prefix_base64: String,
}

/// Whether a checkpoint can be told.
pub open spec fn can_be_told(checkpoint: TerminalCheckpoint) -> bool {
    checkpoint.payload@.len() <= MAX_ENCODED_BYTES && checkpoint.input_prefix@.len()
        <= MAX_ENCODED_BYTES
}

impl TerminalCheckpointDto {
    /// Whether this describes a checkpoint.
    pub open spec fn is_of(self, value: TerminalCheckpoint) -> bool {
        &&& self.format@ == value.format@
        &&& self.format_version == value.format_version
        &&& self.sequence@ == decimal(value.sequence as nat)
        &&& self.terminal_size == TerminalSizeDto::of(value.terminal_size)
        &&& self.payload_base64@ == base64_text(value.payload@)
        &&& self.input_prefix_base64@ == base64_text(value.input_prefix@)
    }

    pub fn from_proto(value: TerminalCheckpoint) -> (dto: Self)
        requires
            can_be_told(value),
        ensures
            dto.is_of(value),
    {
        TerminalCheckpointDto {
            format: value.format,
            format_version: value.format_version,
            sequence: decimal_text(value.sequence),
            terminal_size: TerminalSizeDto::from_proto(value.terminal_size),
            payload_base64: encode_base64(value.payload.as_slice()),
            input_prefix_base64: encode_base64(value.input_prefix.as_slice()),
        }
    }
}

/// What the client confirms when it has presented an event.
#[derive(Debug, Clone, Copy, PartialEq, Eq, Structural)]
pub enum PresentationAcknowledgement {
    Checkpoint { sequence: u64 },
    Output { sequence_end: u64 },
    Geometry { observed_sequence: u64 },
}

impl PresentationAcknowledgement {
    /// The acknowledgement for the controller. The client always adopts the
    /// terminal's grid, so it is never incompatible.
    pub fn apply(self) -> (acknowledgement: PresentationAck)
        ensures
            acknowledgement == match self {
                PresentationAcknowledgement::Checkpoint { sequence } =>
                    PresentationAck::Checkpoint { sequence },
                PresentationAcknowledgement::Output { sequence_end } => PresentationAck::Output {
                    sequence_end,
                },
                PresentationAcknowledgement::Geometry { observed_sequence } =>
                    PresentationAck::Geometry { observed_sequence },
            },
    {
        match self {
            PresentationAcknowledgement::Checkpoint { sequence } => PresentationAck::Checkpoint {
                sequence,
            },
            PresentationAcknowledgement::Output { sequence_end } => PresentationAck::Output {
                sequence_end,
            },
            PresentationAcknowledgement::Geometry { observed_sequence } =>
                PresentationAck::Geometry { observed_sequence },
        }
    }
}

#[derive(Debug, Clone, Copy, PartialEq, Eq, Structural)]
pub enum AttachmentExitReasonDto {
    Detached,
    ConnectionClosed,
    SessionEnded,
}

#[derive(Debug, PartialEq, Eq)]
pub enum AttachmentEventDto {
    Checkpoint {
        attachment_id: String,
        event_id: String,
        checkpoint: TerminalCheckpointDto,
        history_gap: bool,
    },
    Output {
        attachment_id: String,
        event_id: String,
        sequence_start: String,
        sequence_end: String,
        data_base64: String,
    },
    PtyGeometryChanged {
        attachment_id: String,
        event_id: String,
        terminal_size: TerminalSizeDto,
        observed_sequence: String,
    },
    LeaseStatus { attachment_id: String, lease: LeaseKindDto, status: LeaseStatusDto },
    ShellStateChanged { attachment_id: String, shell_state: ShellStateDto },
    ServerError { attachment_id: String, code: String, message: String },
    SessionEnded { attachment_id: String, session_id: String, exit_code: Option<u32> },
    AttachmentExited {
        attachment_id: String,
        reason: AttachmentExitReasonDto,
        exit_code: Option<u32>,
        next_sequence: Option<String>,
        received_sequence: String,
    },
    AttachmentError { attachment_id: String, code: String, message: String },
}

impl AttachmentEventDto {
    pub fn checkpoint(
        attachment_id: &str,
        event_id: String,
        checkpoint: TerminalCheckpoint,
        history_gap: bool,
    ) -> (event: Self)
        requires
            can_be_told(checkpoint),
        ensures
            event matches AttachmentEventDto::Checkpoint {
                attachment_id: attachment,
                event_id: id,
                checkpoint: dto,
                history_gap: gap,
            } && attachment@ == attachment_id@ && id == event_id && dto.is_of(checkpoint) && gap
                == history_gap,
    {
        AttachmentEventDto::Checkpoint {
            attachment_id: attachment_id.to_owned(),
            event_id,
            checkpoint: TerminalCheckpointDto::from_proto(checkpoint),
            history_gap,
        }
    }

    pub fn output(
        attachment_id: &str,
        event_id: String,
        sequence_start: u64,
        sequence_end: u64,
        data: &[u8],
    ) -> (event: Self)
        requires
            data@.len() <= MAX_ENCODED_BYTES,
        ensures
            event matches AttachmentEventDto::Output {
                attachment_id: attachment,
                event_id: id,
                sequence_start: start,
                sequence_end: end,
                data_base64,
            } && attachment@ == attachment_id@ && id == event_id && start@ == decimal(
                sequence_start as nat,
            ) && end@ == decimal(sequence_end as nat) && data_base64@ == base64_text(data@)
                && base64_bytes(data_base64@) is Ok && base64_bytes(data_base64@)->Ok_0 == data@,
    {
        AttachmentEventDto::Output {
            attachment_id: attachment_id.to_owned(),
            event_id,
            sequence_start: decimal_text(sequence_start),
            sequence_end: decimal_text(sequence_end),
            data_base64: encode_base64(data),
        }
    }

    pub fn pty_geometry_changed(
        attachment_id: &str,
        event_id: String,
        terminal_size: TerminalSize,
        observed_sequence: u64,
    ) -> (event: Self)
        ensures
            event matches AttachmentEventDto::PtyGeometryChanged {
                attachment_id: attachment,
                event_id: id,
                terminal_size: size,
                observed_sequence: observed,
            } && attachment@ == attachment_id@ && id == event_id && size == TerminalSizeDto::of(
                terminal_size,
            ) && observed@ == decimal(observed_sequence as nat),
    {
        AttachmentEventDto::PtyGeometryChanged {
            attachment_id: attachment_id.to_owned(),
            event_id,
            terminal_size: TerminalSizeDto::from_proto(terminal_size),
            observed_sequence: decimal_text(observed_sequence),
        }
    }

    pub fn lease_status(attachment_id: &str, lease: LeaseKind, status: LeaseStatus) -> (event: Self)
        ensures
            event matches AttachmentEventDto::LeaseStatus {
                attachment_id: attachment,
                lease: kind,
                status: seen,
            } && attachment@ == attachment_id@ && kind == LeaseKindDto::of(lease) && seen
                == LeaseStatusDto::of(status),
    {
        AttachmentEventDto::LeaseStatus {
            attachment_id: attachment_id.to_owned(),
            lease: LeaseKindDto::from_proto(lease),
            status: LeaseStatusDto::from_proto(status),
        }
    }

    pub fn shell_state_changed(attachment_id: &str, state: ShellState) -> (event: Self)
        ensures
            event matches AttachmentEventDto::ShellStateChanged {
                attachment_id: attachment,
                shell_state,
            } && attachment@ == attachment_id@ && shell_state.is_of(state),
    {
        AttachmentEventDto::ShellStateChanged {
            attachment_id: attachment_id.to_owned(),
            shell_state: ShellStateDto::from_proto(state),
        }
    }

    pub fn server_error(attachment_id: &str, code: &ErrorCode, message: String) -> (event: Self)
        ensures
            event matches AttachmentEventDto::ServerError {
                attachment_id: attachment,
                code: name,
                message: text,
            } && attachment@ == attachment_id@ && name@ == protocol_error_words(*code) && text
                == message,
    {
        AttachmentEventDto::ServerError {
            attachment_id: attachment_id.to_owned(),
            code: protocol_error_code(code).to_owned(),
            message,
        }
    }

    pub fn session_ended(attachment_id: &str, session_id: String, exit_code: Option<u32>) -> (event:
        Self)
        ensures
            event matches AttachmentEventDto::SessionEnded {
                attachment_id: attachment,
                session_id: session,
                exit_code: code,
            } && attachment@ == attachment_id@ && session == session_id && code == exit_code,
    {
        AttachmentEventDto::SessionEnded {
            attachment_id: attachment_id.to_owned(),
            session_id,
            exit_code,
        }
    }

    /// How an attachment ended. With `require_checkpoint` the client is not
    /// told where to resume, so that it starts with a checkpoint.
    pub fn attachment_exited(attachment_id: &str, exit: &AttachExit, require_checkpoint: bool) -> (
    event: Self)
        ensures
            event matches AttachmentEventDto::AttachmentExited {
                attachment_id: attachment,
                reason,
                exit_code,
                next_sequence,
                received_sequence,
            } && {
                &&& attachment@ == attachment_id@
                &&& (reason, exit_code) == match exit.reason {
                    AttachExitReason::Detached => (AttachmentExitReasonDto::Detached, None::<u32>),
                    AttachExitReason::ConnectionClosed => (
                        AttachmentExitReasonDto::ConnectionClosed,
                        None,
                    ),
                    AttachExitReason::SessionEnded { exit_code: code } => (
                        AttachmentExitReasonDto::SessionEnded,
                        code,
                    ),
                }
                &&& optional(next_sequence) == match exit.next_sequence {
                    Some(sequence) => if require_checkpoint {
                        None
                    } else {
                        Some(decimal(sequence as nat))
                    },
                    None => None,
                }
                &&& received_sequence@ == decimal(exit.received_sequence as nat)
            },
    {
        let (reason, exit_code) = match exit.reason {
            AttachExitReason::Detached => (AttachmentExitReasonDto::Detached, None),
            AttachExitReason::ConnectionClosed => (AttachmentExitReasonDto::ConnectionClosed, None),
            AttachExitReason::SessionEnded { exit_code } => (
                AttachmentExitReasonDto::SessionEnded,
                exit_code,
            ),
        };
        let next_sequence = match exit.next_sequence {
            Some(sequence) => if require_checkpoint {
                None
            } else {
                Some(decimal_text(sequence))
            },
            None => None,
        };
        AttachmentEventDto::AttachmentExited {
            attachment_id: attachment_id.to_owned(),
            reason,
            exit_code,
            next_sequence,
            received_sequence: decimal_text(exit.received_sequence),
        }
    }

    pub fn attachment_error(attachment_id: &str, code: &str, message: &str) -> (event: Self)
        ensures
            event matches AttachmentEventDto::AttachmentError {
                attachment_id: attachment,
                code: name,
                message: text,
            } && attachment@ == attachment_id@ && name@ == code@ && text@ == message@,
    {
        AttachmentEventDto::AttachmentError {
            attachment_id: attachment_id.to_owned(),
            code: code.to_owned(),
            message: message.to_owned(),
        }
    }
}

/// The bytes that a command writes to a terminal: text that is not base64 and
/// too many bytes are refused.
pub fn decode_input(data_base64: &str) -> (result: Result<Vec<u8>, CommandErrorDto>)
    ensures
        match base64_bytes(data_base64@) {
            Err(problem) => result is Err && result->Err_0.says(
                "invalid_input_base64"@,
                "invalid input bytes: "@ + problem,
            ),
            Ok(bytes) => if bytes.len() > MAX_INPUT_BYTES {
                result is Err && result->Err_0.says(
                    "input_too_large"@,
                    "terminal input exceeds the "@ + decimal(MAX_INPUT_BYTES as nat)
                        + "-byte command limit"@,
                )
            } else {
                result is Ok && result->Ok_0@ == bytes
            },
        },
{
    match decode_base64(data_base64) {
        Ok(data) => bounded_input(data),
        Err(problem) => Err(
            CommandErrorDto::new(
                "invalid_input_base64",
                prefixed("invalid input bytes: ", problem.as_str()).as_str(),
            ),
        ),
    }
}

/// Bytes that a command may write to a terminal.
pub fn bounded_input(data: Vec<u8>) -> (result: Result<Vec<u8>, CommandErrorDto>)
    ensures
        match result {
            Ok(kept) => data@.len() <= MAX_INPUT_BYTES && kept == data,
            Err(error) => data@.len() > MAX_INPUT_BYTES && error.says(
                "input_too_large"@,
                "terminal input exceeds the "@ + decimal(MAX_INPUT_BYTES as nat)
                    + "-byte command limit"@,
            ),
        },
{
    if data.len() > MAX_INPUT_BYTES {
        return Err(
            CommandErrorDto::new(
                "input_too_large",
                between(
                    "terminal input exceeds the ",
                    decimal_text(MAX_INPUT_BYTES as u64).as_str(),
                    "-byte command limit",
                ).as_str(),
            ),
        );
    }
    Ok(data)
}

/// What is said of a text that is not a sequence.
pub open spec fn sequence_refusal(problem: NumberProblem) -> Seq<char> {
    "sequence must be an unsigned decimal integer: "@ + problem.text()
}

/// A sequence that the client sent as a decimal text.
pub fn parse_sequence(value: Option<String>) -> (result: Result<Option<u64>, CommandErrorDto>)
    ensures
        match value {
            None => result == Ok::<Option<u64>, CommandErrorDto>(None),
            Some(text) => match number_problem(encode_utf8(text@), u64::MAX as nat) {
                None => {
                    let number = parsed_number(text@, u64::MAX as nat);
                    &&& number is Some
                    &&& result == Ok::<Option<u64>, CommandErrorDto>(Some(number->0 as u64))
                },
                Some(problem) => result is Err && result->Err_0.says(
                    "invalid_sequence"@,
                    sequence_refusal(problem),
                ),
            },
        },
{
    match value {
        None => Ok(None),
        Some(text) => {
            proof {
                a_number_has_no_problem(encode_utf8(text@), u64::MAX as nat);
            }
            match find_number_problem(text.as_str(), u64::MAX) {
                None => Ok(parse_number(text.as_str(), u64::MAX)),
                Some(problem) => Err(
                    CommandErrorDto::new(
                        "invalid_sequence",
                        prefixed(
                            "sequence must be an unsigned decimal integer: ",
                            problem.message(),
                        ).as_str(),
                    ),
                ),
            }
        },
    }
}

/// How the graphical client introduces itself.
pub fn gui_identity(client_version: &str) -> (identity: ClientIdentity)
    ensures
        identity.name@ == "rmux-gui"@,
        identity.version@ == client_version@,
{
    ClientIdentity { name: "rmux-gui".to_owned(), version: client_version.to_owned() }
}

/// The answer was another one than expected.
fn unexpected_response(expected: &str) -> (error: CommandErrorDto)
    ensures
        error.says(
            "unexpected_rmux_response"@,
            "expected "@ + expected@ + ", received another response type"@,
        ),
{
    CommandErrorDto::new(
        "unexpected_rmux_response",
        between("expected ", expected, ", received another response type").as_str(),
    )
}

/// The sessions in an answer.
pub fn listed_sessions(response: ServerMessage) -> (result: Result<Vec<SessionDto>, CommandErrorDto>)
    ensures
        match response {
            ServerMessage::SessionList { sessions } => {
                &&& result is Ok
                &&& result->Ok_0@.len() == sessions@.len()
                &&& forall|i: int|
                    0 <= i < sessions@.len() ==> (#[trigger] result->Ok_0@[i]).is_of(sessions@[i])
            },
            _ => result is Err && result->Err_0.says(
                "unexpected_rmux_response"@,
                "expected "@ + "session_list"@ + ", received another response type"@,
            ),
        },
{
    match response {
        ServerMessage::SessionList { sessions } => {
            let mut list: Vec<SessionDto> = Vec::new();
            let mut index: usize = 0;
            while index < sessions.len()
                invariant
                    index <= sessions@.len(),
                    list@.len() == index,
                    forall|i: int| 0 <= i < index ==> (#[trigger] list@[i]).is_of(sessions@[i]),
                decreases sessions@.len() - index,
            {
                list.push(SessionDto::from_proto(sessions[index].clone()));
                index += 1;
            }
            Ok(list)
        },
        _ => Err(unexpected_response("session_list")),
    }
}

/// The session in an answer.
pub fn created_session(response: ServerMessage) -> (result: Result<SessionDto, CommandErrorDto>)
    ensures
        match response {
            ServerMessage::SessionCreated { session } => result is Ok && result->Ok_0.is_of(
                session,
            ),
            _ => result is Err && result->Err_0.says(
                "unexpected_rmux_response"@,
                "expected "@ + "session_created"@ + ", received another response type"@,
            ),
        },
{
    match response {
        ServerMessage::SessionCreated { session } => Ok(SessionDto::from_proto(session)),
        _ => Err(unexpected_response("session_created")),
    }
}

/// Whether an answer reports success.
pub fn succeeded(response: ServerMessage) -> (result: Result<(), CommandErrorDto>)
    ensures
        match response {
            ServerMessage::Success => result is Ok,
            _ => result is Err && result->Err_0.says(
                "unexpected_rmux_response"@,
                "expected "@ + "success"@ + ", received another response type"@,
            ),
        },
{
    match response {
        ServerMessage::Success => Ok(()),
        _ => Err(unexpected_response("success")),
    }
}

/// The message that creates a session, in the user's home directory unless the
/// request names one.
pub fn create_message(request: CreateSessionRequestDto, home: Result<String, CommandErrorDto>) -> (
    result: Result<ClientMessage, CommandErrorDto>)
    ensures
        ({
            let size = request.terminal_size;
            if size.columns == 0 || size.rows == 0 {
                result is Err && result->Err_0.says(
                    "invalid_terminal_size"@,
                    "terminal columns and rows must be greater than zero"@,
                )
            } else if request.working_directory is None && home is Err {
                result == Err::<ClientMessage, _>(home->Err_0)
            } else {
                result matches Ok(ClientMessage::CreateSession {
                    name,
                    command,
                    working_directory,
                    terminal_size,
                }) && {
                    &&& name is None
                    &&& command is None
                    &&& working_directory == match request.working_directory {
                        Some(directory) => Some(directory),
                        None => Some(home->Ok_0),
                    }
                    &&& terminal_size.columns == size.columns
                    &&& terminal_size.rows == size.rows
                    &&& terminal_size.pixel_width == match size.pixel_width {
                        Some(width) => width,
                        None => 0,
                    }
                    &&& terminal_size.pixel_height == match size.pixel_height {
                        Some(height) => height,
                        None => 0,
                    }
                }
            }
        }),
{
    let terminal_size = match request.terminal_size.into_proto() {
        Ok(size) => size,
        Err(error) => {
            return Err(error);
        },
    };
    let working_directory = match request.working_directory {
        Some(directory) => directory,
        None => match home {
            Ok(directory) => directory,
            Err(error) => {
                return Err(error);
            },
        },
    };
    Ok(
        ClientMessage::CreateSession {
            name: None,
            command: None,
            working_directory: Some(working_directory),
            terminal_size,
        },
    )
}

/// What to attach with. The edited command line is never asked for.
pub fn attach_request(request: OpenAttachmentRequestDto) -> (result: Result<
    AttachRequest,
    CommandErrorDto,
>)
    ensures
        ({
            let size = request.terminal_size;
            if size.columns == 0 || size.rows == 0 {
                result is Err && result->Err_0.says(
                    "invalid_terminal_size"@,
                    "terminal columns and rows must be greater than zero"@,
                )
            } else if request.resume_from is Some && number_problem(
                encode_utf8(request.resume_from->0@),
                u64::MAX as nat,
            ) is Some {
                result is Err && result->Err_0.says(
                    "invalid_sequence"@,
                    sequence_refusal(
                        number_problem(
                            encode_utf8(request.resume_from->0@),
                            u64::MAX as nat,
                        )->0,
                    ),
                )
            } else {
                result matches Ok(attach) && {
                    &&& attach.session == request.session
                    &&& attach.resume_from == match request.resume_from {
                        Some(text) => Some(parsed_number(text@, u64::MAX as nat)->0 as u64),
                        None => None,
                    }
                    &&& attach.terminal_size.columns == size.columns
                    &&& attach.terminal_size.rows == size.rows
                    &&& attach.terminal_size.pixel_width == match size.pixel_width {
                        Some(width) => width,
                        None => 0,
                    }
                    &&& attach.terminal_size.pixel_height == match size.pixel_height {
                        Some(height) => height,
                        None => 0,
                    }
                    &&& attach.request_input_lease == request.request_input_lease
                    &&& attach.request_layout_lease == request.request_layout_lease
                    &&& !attach.request_command_line
                    &&& attach.request_running_command
                    &&& attach.presentation_window_bytes == DEFAULT_PRESENTATION_WINDOW_BYTES
                }
            }
        }),
{
    let terminal_size = match request.terminal_size.into_proto() {
        Ok(size) => size,
        Err(error) => {
            return Err(error);
        },
    };
    let resume_from = match parse_sequence(request.resume_from) {
        Ok(sequence) => sequence,
        Err(error) => {
            return Err(error);
        },
    };
    Ok(
        AttachRequest {
            session: request.session,
            resume_from,
            terminal_size,
            request_input_lease: request.request_input_lease,
            request_layout_lease: request.request_layout_lease,
            request_command_line: false,
            request_running_command: true,
            presentation_window_bytes: DEFAULT_PRESENTATION_WINDOW_BYTES,
        },
    )
}

/// A sequence survives the way to the client and back, however large it is.
pub proof fn sequences_come_back(sequence: u64)
    ensures
        parsed_number(decimal(sequence as nat), u64::MAX as nat) == Some(sequence as nat),
{
    crate::text::decimals_are_read_back(sequence as nat, u64::MAX as nat);
}

/// What a client is told of a session is the whole of it: the sequence can be
/// read back, and the other parts are there as they are.
pub proof fn a_session_is_told_as_it_is(dto: SessionDto, value: SessionInfo)
    requires
        dto.is_of(value),
    ensures
        dto.session_id@ == value.session_id@,
        dto.name@ == value.name@,
        dto.status == SessionStatusDto::Running <==> value.status == SessionStatus::Running,
        parsed_number(dto.next_sequence@, u64::MAX as nat) == Some(value.next_sequence as nat),
        dto.terminal_size.columns == value.terminal_size.columns,
        dto.terminal_size.rows == value.terminal_size.rows,
{
    sequences_come_back(value.next_sequence);
}

/// What a client is told of a shell: its revision and place can be read back,
/// its directory is the same.
pub proof fn a_shell_state_is_told_as_it_is(dto: ShellStateDto, value: ShellState)
    requires
        dto.is_of(value),
    ensures
        parsed_number(dto.revision@, u64::MAX as nat) == Some(value.revision as nat),
        parsed_number(dto.observed_sequence@, u64::MAX as nat) == Some(
            value.observed_sequence as nat,
        ),
        optional(dto.cwd) == optional(value.cwd),
{
    sequences_come_back(value.revision);
    sequences_come_back(value.observed_sequence);
}

/// Every kind is told under its own name.
pub proof fn kinds_keep_their_names(
    shell_type: ShellType,
    phase: PromptPhase,
    hint: TuiHint,
    lease: LeaseKind,
    status: LeaseStatus,
)
    ensures
        ShellTypeDto::of(shell_type) is Bash <==> shell_type is Bash,
        ShellTypeDto::of(shell_type) is Fish <==> shell_type is Fish,
        ShellTypeDto::of(shell_type) is Pwsh <==> shell_type is Pwsh,
        ShellTypeDto::of(shell_type) is Zsh <==> shell_type is Zsh,
        ShellTypeDto::of(shell_type) is Cmd <==> shell_type is Cmd,
        ShellTypeDto::of(shell_type) is Sh <==> shell_type is Sh,
        ShellTypeDto::of(shell_type) is Unknown <==> shell_type is Unknown,
        PromptPhaseDto::of(phase) is Unknown <==> phase is Unknown,
        PromptPhaseDto::of(phase) is AtPrompt <==> phase is AtPrompt,
        PromptPhaseDto::of(phase) is Editing <==> phase is Editing,
        PromptPhaseDto::of(phase) is Running <==> phase is Running,
        TuiHintDto::of(hint) is Unknown <==> hint is Unknown,
        TuiHintDto::of(hint) is Inline <==> hint is Inline,
        TuiHintDto::of(hint) is AlternateScreen <==> hint is AlternateScreen,
        LeaseKindDto::of(lease) is Input <==> lease is Input,
        LeaseKindDto::of(lease) is Layout <==> lease is Layout,
        LeaseStatusDto::of(status).held == status.held,
        LeaseStatusDto::of(status).owned_by_client == status.owned_by_client,
{
}

} // verus!
