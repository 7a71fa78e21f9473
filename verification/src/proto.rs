//! The messages and shared state types of the session protocol.
use vstd::prelude::*;
use vstd::string::*;
use vstd::utf8::encode_utf8;

use crate::text::{optional, same_optional_text, same_text, texts};

verus! {

pub const PROTOCOL_VERSION: u16 = 7;

/// Largest encoded message, in bytes.
pub const MAX_FRAME_SIZE: usize = 8_388_608;

pub const TERMINAL_CHECKPOINT_FORMAT: &'static str = "rmux_vt_state";

pub const TERMINAL_CHECKPOINT_FORMAT_VERSION: u16 = 1;

pub const TERMINAL_HISTORY_FORMAT: &'static str = "rmux_logical_lines";

pub const TERMINAL_HISTORY_FORMAT_VERSION: u16 = 1;

/// Maximum UTF-8 byte length of a shell-reported running-command summary.
///
/// This is intentionally much smaller than the editable command-line bound:
/// it is presentation metadata for titles, not an alternate command buffer.
pub const MAX_RUNNING_COMMAND_BYTES: usize = 256;

/// The grid and the pixel extent of a terminal.
#[derive(Debug, Clone, Copy, PartialEq, Eq, Structural)]
pub struct TerminalSize {
    pub columns: u16,
    pub rows: u16,
    pub pixel_width: u16,
    pub pixel_height: u16,
}

impl Default for TerminalSize {
    fn default() -> (size: Self)
        ensures
            size == (TerminalSize { columns: 80, rows: 24, pixel_width: 0, pixel_height: 0 }),
    {
        TerminalSize { columns: 80, rows: 24, pixel_width: 0, pixel_height: 0 }
    }
}

/// An independently controlled capability of an attached terminal client.
///
/// Input and PTY layout intentionally have separate owners. For example, a
/// phone may view and type into a desktop-sized session without changing its
/// layout.
#[derive(Debug, Clone, Copy, PartialEq, Eq, Structural)]
pub enum LeaseKind {
    Input,
    Layout,
}

/// Lease state as observed by one attached client.
///
/// The daemon deliberately does not expose another attachment's identity.
#[derive(Debug, Clone, Copy, PartialEq, Eq, Structural)]
pub struct LeaseStatus {
    pub held: bool,
    pub owned_by_client: bool,
}

/// A terminal screen, rendered as the bytes that restore it.
#[derive(Debug, PartialEq, Eq)]
pub struct TerminalCheckpoint {
    pub format: String,
    pub format_version: u16,
    pub sequence: u64,
    pub terminal_size: TerminalSize,
    pub payload: Vec<u8>,
    pub input_prefix: Vec<u8>,
}

/// The mathematical content of a [`TerminalCheckpoint`].
#[verifier::ext_equal]
pub struct Checkpoint {
    pub format: Seq<char>,
    pub format_version: u16,
    pub sequence: u64,
    pub terminal_size: TerminalSize,
    pub payload: Seq<u8>,
    pub input_prefix: Seq<u8>,
}

impl View for TerminalCheckpoint {
    type V = Checkpoint;

    open spec fn view(&self) -> Checkpoint {
        Checkpoint {
            format: self.format@,
            format_version: self.format_version,
            sequence: self.sequence,
            terminal_size: self.terminal_size,
            payload: self.payload@,
            input_prefix: self.input_prefix@,
        }
    }
}

impl Clone for TerminalCheckpoint {
    fn clone(&self) -> (copy: Self)
        ensures
            copy@ == self@,
    {
        TerminalCheckpoint {
            format: self.format.clone(),
            format_version: self.format_version,
            sequence: self.sequence,
            terminal_size: self.terminal_size,
            payload: self.payload.clone(),
            input_prefix: self.input_prefix.clone(),
        }
    }
}

impl Checkpoint {
    /// Whether this program knows how to restore the checkpoint.
    pub open spec fn supported(self) -> bool {
        self.format == TERMINAL_CHECKPOINT_FORMAT@ && self.format_version
            == TERMINAL_CHECKPOINT_FORMAT_VERSION
    }
}

impl TerminalCheckpoint {
    pub fn is_supported(&self) -> (supported: bool)
        ensures
            supported == self@.supported(),
    {
        same_text(self.format.as_str(), TERMINAL_CHECKPOINT_FORMAT) && self.format_version
            == TERMINAL_CHECKPOINT_FORMAT_VERSION
    }
}

/// Normalized logical lines that lie completely above the live grid.
#[derive(Debug, PartialEq, Eq)]
pub struct TerminalHistorySnapshot {
    pub format: String,
    pub format_version: u16,
    pub sequence: u64,
    pub generation: u64,
    pub revision: u64,
    pub retained_bytes: u64,
    pub truncated: bool,
    pub lines: Vec<String>,
}

/// The mathematical content of a [`TerminalHistorySnapshot`].
#[verifier::ext_equal]
pub struct History {
    pub format: Seq<char>,
    pub format_version: u16,
    pub sequence: u64,
    pub generation: u64,
    pub revision: u64,
    pub retained_bytes: u64,
    pub truncated: bool,
    pub lines: Seq<Seq<char>>,
}

impl View for TerminalHistorySnapshot {
    type V = History;

    open spec fn view(&self) -> History {
        History {
            format: self.format@,
            format_version: self.format_version,
            sequence: self.sequence,
            generation: self.generation,
            revision: self.revision,
            retained_bytes: self.retained_bytes,
            truncated: self.truncated,
            lines: texts(self.lines@),
        }
    }
}

impl Clone for TerminalHistorySnapshot {
    fn clone(&self) -> (copy: Self)
        ensures
            copy@ == self@,
    {
        TerminalHistorySnapshot {
            format: self.format.clone(),
            format_version: self.format_version,
            sequence: self.sequence,
            generation: self.generation,
            revision: self.revision,
            retained_bytes: self.retained_bytes,
            truncated: self.truncated,
            lines: self.lines.clone(),
        }
    }
}

/// The shell program that most recently reported session awareness metadata.
///
/// `Unknown` means no supported shell integration has reported its identity;
/// it does not attempt to infer a shell from rendered terminal output.
#[derive(Debug, Clone, Copy, PartialEq, Eq, Structural)]
pub enum ShellType {
    Bash,
    Fish,
    Pwsh,
    Zsh,
    Cmd,
    Sh,
    Unknown,
}

impl Default for ShellType {
    fn default() -> (shell_type: Self)
        ensures
            shell_type == ShellType::Unknown,
    {
        ShellType::Unknown
    }
}

/// Shell-awareness features advertised by a shell integration.
///
/// A capability only says that the integration can report a value. The value
/// may still be absent when it is not meaningful, unavailable, or withheld by
/// a daemon visibility policy.
#[derive(Debug, Clone, Copy, PartialEq, Eq, Structural)]
pub struct ShellCapabilities {
    pub reports_cwd: bool,
    pub reports_command_line: bool,
    pub reports_cursor: bool,
    pub reports_prompt_phase: bool,
    /// The integration can report a bounded, non-editable command summary
    /// while the shell is waiting for that command to finish.
    pub reports_running_command: bool,
}

impl ShellCapabilities {
    /// No capability at all.
    pub open spec fn none() -> ShellCapabilities {
        ShellCapabilities {
            reports_cwd: false,
            reports_command_line: false,
            reports_cursor: false,
            reports_prompt_phase: false,
            reports_running_command: false,
        }
    }
}

impl Default for ShellCapabilities {
    fn default() -> (capabilities: Self)
        ensures
            capabilities == ShellCapabilities::none(),
    {
        ShellCapabilities {
            reports_cwd: false,
            reports_command_line: false,
            reports_cursor: false,
            reports_prompt_phase: false,
            reports_running_command: false,
        }
    }
}

/// Describes the shell integration currently associated with a session.
#[derive(Debug, Clone, Copy, PartialEq, Eq, Structural)]
pub struct ShellDescriptor {
    pub shell_type: ShellType,
    /// Version of the shell-integration report format, if one reported it.
    pub integration_version: Option<u16>,
    pub capabilities: ShellCapabilities,
}

impl ShellDescriptor {
    /// The descriptor of a session without shell integration.
    pub open spec fn unknown() -> ShellDescriptor {
        ShellDescriptor {
            shell_type: ShellType::Unknown,
            integration_version: None,
            capabilities: ShellCapabilities::none(),
        }
    }
}

impl Default for ShellDescriptor {
    fn default() -> (descriptor: Self)
        ensures
            descriptor == ShellDescriptor::unknown(),
    {
        ShellDescriptor {
            shell_type: ShellType::Unknown,
            integration_version: None,
            capabilities: ShellCapabilities::default(),
        }
    }
}

/// The shell's high-level interaction phase.
#[derive(Debug, Clone, Copy, PartialEq, Eq, Structural)]
pub enum PromptPhase {
    /// No supported integration has reported a prompt phase.
    Unknown,
    /// The shell is ready at an empty prompt.
    AtPrompt,
    /// The shell is accepting an editable command line.
    Editing,
    /// The shell has accepted a command and is waiting for it to complete.
    Running,
}

impl Default for PromptPhase {
    fn default() -> (phase: Self)
        ensures
            phase == PromptPhase::Unknown,
    {
        PromptPhase::Unknown
    }
}

/// The current editable shell command line.
#[derive(Debug, PartialEq, Eq)]
pub struct CommandLine {
    pub text: String,
    /// Optional Unicode scalar-value offset into [`Self::text`].
    pub cursor_scalar_offset: Option<u32>,
}

impl Clone for CommandLine {
    fn clone(&self) -> (copy: Self)
        ensures
            copy == *self,
    {
        CommandLine {
            text: self.text.clone(),
            cursor_scalar_offset: self.cursor_scalar_offset,
        }
    }
}

impl CommandLine {
    /// Whether the cursor, when present, lies within the text.
    pub open spec fn cursor_valid(self) -> bool {
        self.cursor_scalar_offset matches Some(offset) ==> offset <= self.text@.len()
    }

    /// Returns whether `cursor_scalar_offset`, when present, is within
    /// [`Self::text`].
    pub fn has_valid_cursor(&self) -> (valid: bool)
        ensures
            valid == self.cursor_valid(),
    {
        match self.cursor_scalar_offset {
            Some(offset) => offset as usize <= self.text.as_str().unicode_len(),
            None => true,
        }
    }
}

/// An editable line with its cursor: the mathematical content of a
/// [`CommandLine`].
pub struct Line {
    pub text: Seq<char>,
    pub cursor: Option<nat>,
}

impl Line {
    pub open spec fn cursor_valid(self) -> bool {
        self.cursor matches Some(offset) ==> offset <= self.text.len()
    }
}

pub open spec fn line_of(line: Option<CommandLine>) -> Option<Line> {
    match line {
        Some(line) => Some(
            Line {
                text: line.text@,
                cursor: match line.cursor_scalar_offset {
                    Some(offset) => Some(offset as nat),
                    None => None,
                },
            },
        ),
        None => None,
    }
}

/// A presentation hint derived from terminal alternate-screen state.
///
/// This is not an authoritative classification of an application. Some TUIs
/// do not use the alternate screen, and some non-TUI programs do.
#[derive(Debug, Clone, Copy, PartialEq, Eq, Structural)]
pub enum TuiHint {
    /// The terminal parser has not established an alternate-screen state yet.
    Unknown,
    /// The terminal is using its normal inline screen buffer.
    Inline,
    /// The terminal parser observed the alternate screen buffer as active.
    AlternateScreen,
}

impl Default for TuiHint {
    fn default() -> (hint: Self)
        ensures
            hint == TuiHint::Unknown,
    {
        TuiHint::Unknown
    }
}

/// Where a working directory was learnt.
#[derive(Debug, Clone, Copy, PartialEq, Eq, Structural)]
pub enum CwdSource {
    ShellIntegration,
    Process,
}

/// What runs in the foreground of a terminal.
#[derive(Debug, PartialEq, Eq)]
pub enum ForegroundProcess {
    Unknown,
    Shell,
    Child { pid: u32, name: Option<String> },
}

impl Clone for ForegroundProcess {
    fn clone(&self) -> (copy: Self)
        ensures
            copy == *self,
    {
        match self {
            ForegroundProcess::Unknown => ForegroundProcess::Unknown,
            ForegroundProcess::Shell => ForegroundProcess::Shell,
            ForegroundProcess::Child { pid, name } => ForegroundProcess::Child {
                pid: *pid,
                name: name.clone(),
            },
        }
    }
}

/// The shell process of a session as the operating system shows it.
#[derive(Debug, PartialEq, Eq)]
pub struct ShellProcessState {
    pub pid: u32,
    pub name: Option<String>,
    pub foreground: ForegroundProcess,
}

impl Clone for ShellProcessState {
    fn clone(&self) -> (copy: Self)
        ensures
            copy == *self,
    {
        ShellProcessState {
            pid: self.pid,
            name: self.name.clone(),
            foreground: self.foreground.clone(),
        }
    }
}

/// The mathematical content of a [`ForegroundProcess`].
pub enum Foreground {
    Unknown,
    Shell,
    Child { pid: u32, name: Option<Seq<char>> },
}

impl View for ForegroundProcess {
    type V = Foreground;

    open spec fn view(&self) -> Foreground {
        match self {
            ForegroundProcess::Unknown => Foreground::Unknown,
            ForegroundProcess::Shell => Foreground::Shell,
            ForegroundProcess::Child { pid, name } => Foreground::Child {
                pid: *pid,
                name: optional(*name),
            },
        }
    }
}

/// The mathematical content of a [`ShellProcessState`].
pub struct Process {
    pub pid: u32,
    pub name: Option<Seq<char>>,
    pub foreground: Foreground,
}

impl View for ShellProcessState {
    type V = Process;

    open spec fn view(&self) -> Process {
        Process { pid: self.pid, name: optional(self.name), foreground: self.foreground@ }
    }
}

pub open spec fn process_of(process: Option<ShellProcessState>) -> Option<Process> {
    match process {
        Some(process) => Some(process@),
        None => None,
    }
}

fn same_foreground(a: &ForegroundProcess, b: &ForegroundProcess) -> (same: bool)
    ensures
        same == (a@ == b@),
{
    match (a, b) {
        (ForegroundProcess::Unknown, ForegroundProcess::Unknown) => true,
        (ForegroundProcess::Shell, ForegroundProcess::Shell) => true,
        (
            ForegroundProcess::Child { pid, name },
            ForegroundProcess::Child { pid: other_pid, name: other_name },
        ) => *pid == *other_pid && same_optional_text(name, other_name),
        _ => false,
    }
}

fn same_process(a: &Option<ShellProcessState>, b: &Option<ShellProcessState>) -> (same: bool)
    ensures
        same == (process_of(*a) == process_of(*b)),
{
    match (a, b) {
        (Some(a), Some(b)) => a.pid == b.pid && same_optional_text(&a.name, &b.name)
            && same_foreground(&a.foreground, &b.foreground),
        (None, None) => true,
        _ => false,
    }
}

fn same_line(a: &Option<CommandLine>, b: &Option<CommandLine>) -> (same: bool)
    ensures
        same == (line_of(*a) == line_of(*b)),
{
    match (a, b) {
        (Some(a), Some(b)) => same_text(a.text.as_str(), b.text.as_str()) && match (
            a.cursor_scalar_offset,
            b.cursor_scalar_offset,
        ) {
            (Some(x), Some(y)) => x == y,
            (None, None) => true,
            _ => false,
        },
        (None, None) => true,
        _ => false,
    }
}

/// Current shell-awareness metadata for one session.
///
/// `observed_sequence` is the raw-output next offset when this state was
/// observed: every raw byte below it has reached the daemon. It is metadata
/// for correlating display state with output, never a resume cursor.
#[derive(Debug, PartialEq, Eq)]
pub struct ShellState {
    /// Monotonically increasing, session-scoped state revision.
    pub revision: u64,
    pub observed_sequence: u64,
    pub shell: ShellDescriptor,
    /// A shell-reported directory, not a portable file path.
    pub cwd: Option<String>,
    /// The directory with the home directory abbreviated.
    pub cwd_display: Option<String>,
    pub cwd_source: Option<CwdSource>,
    pub process: Option<ShellProcessState>,
    pub prompt_phase: PromptPhase,
    /// True when a visibility policy deliberately omitted the current command.
    /// When true, `current_command_line` must be `None`.
    pub command_line_redacted: bool,
    /// Omitted when no current editable line is available or visible.
    pub current_command_line: Option<CommandLine>,
    /// True when a visibility policy deliberately omitted the running-command
    /// summary. When true, `running_command` must be `None`.
    pub running_command_redacted: bool,
    /// A bounded shell-reported command summary while `prompt_phase` is
    /// `running`. This is never an editable buffer.
    pub running_command: Option<String>,
    pub tui_hint: TuiHint,
}

/// The mathematical content of a [`ShellState`].
#[verifier::ext_equal]
pub struct Shell {
    pub revision: u64,
    pub observed_sequence: u64,
    pub shell: ShellDescriptor,
    pub cwd: Option<Seq<char>>,
    pub cwd_display: Option<Seq<char>>,
    pub cwd_source: Option<CwdSource>,
    pub process: Option<Process>,
    pub phase: PromptPhase,
    pub line_redacted: bool,
    pub line: Option<Line>,
    pub running_redacted: bool,
    pub running: Option<Seq<char>>,
    pub tui_hint: TuiHint,
}

impl Shell {
    pub open spec fn metadata_valid(self) -> bool {
        &&& self.line matches Some(line) ==> {
            &&& !self.line_redacted
            &&& self.phase == PromptPhase::AtPrompt || self.phase == PromptPhase::Editing
            &&& line.cursor_valid()
        }
        &&& self.running matches Some(command) ==> {
            &&& !self.running_redacted
            &&& self.shell.capabilities.reports_running_command
            &&& self.phase == PromptPhase::Running
            &&& valid_running_command(command)
        }
    }
}

impl Shell {
    /// The state as one viewer may see it: hidden text is left out and marked
    /// as redacted, and nothing else changes.
    pub open spec fn visible_to(
        self,
        may_view_command_line: bool,
        may_view_running_command: bool,
    ) -> Shell {
        let hides_line = !may_view_command_line && self.line is Some;
        let hides_running = !may_view_running_command && self.running is Some;
        Shell {
            line_redacted: hides_line,
            line: if hides_line {
                None
            } else {
                self.line
            },
            running_redacted: hides_running,
            running: if hides_running {
                None
            } else {
                self.running
            },
            ..self
        }
    }
}

impl View for ShellState {
    type V = Shell;

    open spec fn view(&self) -> Shell {
        Shell {
            revision: self.revision,
            observed_sequence: self.observed_sequence,
            shell: self.shell,
            cwd: optional(self.cwd),
            cwd_display: optional(self.cwd_display),
            cwd_source: self.cwd_source,
            process: process_of(self.process),
            phase: self.prompt_phase,
            line_redacted: self.command_line_redacted,
            line: line_of(self.current_command_line),
            running_redacted: self.running_command_redacted,
            running: optional(self.running_command),
            tui_hint: self.tui_hint,
        }
    }
}

impl Clone for ShellState {
    fn clone(&self) -> (copy: Self)
        ensures
            copy == *self,
    {
        ShellState {
            revision: self.revision,
            observed_sequence: self.observed_sequence,
            shell: self.shell,
            cwd: self.cwd.clone(),
            cwd_display: self.cwd_display.clone(),
            cwd_source: self.cwd_source,
            process: self.process.clone(),
            prompt_phase: self.prompt_phase,
            command_line_redacted: self.command_line_redacted,
            current_command_line: self.current_command_line.clone(),
            running_command_redacted: self.running_command_redacted,
            running_command: self.running_command.clone(),
            tui_hint: self.tui_hint,
        }
    }
}

impl Default for ShellState {
    fn default() -> (state: Self)
        ensures
            state == ShellState::unknown(),
    {
        ShellState {
            revision: 0,
            observed_sequence: 0,
            shell: ShellDescriptor::default(),
            cwd: None,
            cwd_display: None,
            cwd_source: None,
            process: None,
            prompt_phase: PromptPhase::Unknown,
            command_line_redacted: false,
            current_command_line: None,
            running_command_redacted: false,
            running_command: None,
            tui_hint: TuiHint::Unknown,
        }
    }
}

impl ShellState {
    /// The state of a session about which nothing is known.
    pub open spec fn unknown() -> ShellState {
        ShellState {
            revision: 0,
            observed_sequence: 0,
            shell: ShellDescriptor::unknown(),
            cwd: None,
            cwd_display: None,
            cwd_source: None,
            process: None,
            prompt_phase: PromptPhase::Unknown,
            command_line_redacted: false,
            current_command_line: None,
            running_command_redacted: false,
            running_command: None,
            tui_hint: TuiHint::Unknown,
        }
    }

    /// A visible command line is not redacted, belongs to a phase in which
    /// the shell edits, and has its cursor inside the text.
    pub open spec fn command_line_valid(self) -> bool {
        self.current_command_line matches Some(line) ==> {
            &&& !self.command_line_redacted
            &&& self.prompt_phase == PromptPhase::AtPrompt || self.prompt_phase
                == PromptPhase::Editing
            &&& line.cursor_valid()
        }
    }

    /// A visible running command is not redacted, was announced as a
    /// capability, belongs to the running phase, and is a safe summary.
    pub open spec fn running_command_valid(self) -> bool {
        self.running_command matches Some(command) ==> {
            &&& !self.running_command_redacted
            &&& self.shell.capabilities.reports_running_command
            &&& self.prompt_phase == PromptPhase::Running
            &&& valid_running_command(command@)
        }
    }

    pub open spec fn metadata_valid(self) -> bool {
        self.command_line_valid() && self.running_command_valid()
    }

    /// The state as one viewer may see it: hidden text is left out and marked
    /// as redacted, and nothing else changes.
    pub open spec fn visible_to(
        self,
        may_view_command_line: bool,
        may_view_running_command: bool,
    ) -> ShellState {
        let hides_line = !may_view_command_line && self.current_command_line is Some;
        let hides_running = !may_view_running_command && self.running_command is Some;
        ShellState {
            command_line_redacted: hides_line,
            current_command_line: if hides_line {
                None
            } else {
                self.current_command_line
            },
            running_command_redacted: hides_running,
            running_command: if hides_running {
                None
            } else {
                self.running_command
            },
            ..self
        }
    }

    /// Compares two states.
    pub fn same(&self, other: &ShellState) -> (same: bool)
        ensures
            same == (self@ == other@),
    {
        self.revision == other.revision && self.observed_sequence == other.observed_sequence
            && self.shell == other.shell && same_optional_text(&self.cwd, &other.cwd)
            && same_optional_text(&self.cwd_display, &other.cwd_display) && match (
            self.cwd_source,
            other.cwd_source,
        ) {
            (Some(a), Some(b)) => a == b,
            (None, None) => true,
            _ => false,
        } && same_process(&self.process, &other.process) && self.prompt_phase
            == other.prompt_phase && self.command_line_redacted == other.command_line_redacted
            && same_line(&self.current_command_line, &other.current_command_line)
            && self.running_command_redacted == other.running_command_redacted
            && same_optional_text(&self.running_command, &other.running_command) && self.tui_hint
            == other.tui_hint
    }

    /// Returns whether the command-line fields obey their privacy and cursor
    /// invariants.
    pub fn has_valid_command_line(&self) -> (valid: bool)
        ensures
            valid == self.command_line_valid(),
    {
        match &self.current_command_line {
            Some(command_line) => {
                !self.command_line_redacted && (self.prompt_phase == PromptPhase::AtPrompt
                    || self.prompt_phase == PromptPhase::Editing)
                    && command_line.has_valid_cursor()
            },
            None => true,
        }
    }

    /// Returns whether the running-command fields obey their privacy,
    /// capability, phase, and bounded-text invariants.
    pub fn has_valid_running_command(&self) -> (valid: bool)
        ensures
            valid == self.running_command_valid(),
    {
        match &self.running_command {
            Some(command) => {
                !self.running_command_redacted && self.shell.capabilities.reports_running_command
                    && self.prompt_phase == PromptPhase::Running && is_valid_running_command(
                    command.as_str(),
                )
            },
            None => true,
        }
    }

    /// Returns whether every shell-awareness field obeys its wire invariants.
    pub fn has_valid_metadata(&self) -> (valid: bool)
        ensures
            valid == self.metadata_valid(),
            valid == self@.metadata_valid(),
    {
        self.has_valid_command_line() && self.has_valid_running_command()
    }

    /// Returns this snapshot with command metadata filtered for one viewer.
    ///
    /// Visibility is evaluated by the daemon from the attachment's explicit
    /// request and current input lease. The fields remain in every complete
    /// snapshot so clients can distinguish unavailable data from policy
    /// redaction.
    pub fn filtered_for_visibility(
        self,
        may_view_command_line: bool,
        may_view_running_command: bool,
    ) -> (state: Self)
        ensures
            state == self.visible_to(may_view_command_line, may_view_running_command),
            state@ == self@.visible_to(may_view_command_line, may_view_running_command),
    {
        let mut state = self;
        state.command_line_redacted = false;
        if !may_view_command_line && state.current_command_line.is_some() {
            state.current_command_line = None;
            state.command_line_redacted = true;
        }
        state.running_command_redacted = false;
        if !may_view_running_command && state.running_command.is_some() {
            state.running_command = None;
            state.running_command_redacted = true;
        }
        state
    }

    /// The directory to show: the abbreviated one where there is one.
    pub fn displayed_cwd(&self) -> (cwd: Option<&str>)
        ensures
            match (self.cwd_display, self.cwd) {
                (Some(display), _) => cwd is Some && cwd->0@ == display@,
                (None, Some(directory)) => cwd is Some && cwd->0@ == directory@,
                (None, None) => cwd is None,
            },
    {
        match &self.cwd_display {
            Some(display) => Some(display.as_str()),
            None => match &self.cwd {
                Some(directory) => Some(directory.as_str()),
                None => None,
            },
        }
    }
}

/// Whether a character is a control character: C0, delete, or C1.
pub open spec fn control(c: char) -> bool {
    c as u32 <= 0x1f || 0x7f <= c as u32 <= 0x9f
}

/// A summary that is safe to retain: short, not empty, no control characters.
pub open spec fn valid_running_command(command: Seq<char>) -> bool {
    &&& command.len() > 0
    &&& encode_utf8(command).len() <= MAX_RUNNING_COMMAND_BYTES
    &&& forall|i: int| 0 <= i < command.len() ==> !control(#[trigger] command[i])
}

/// Whether a text holds a control character.
pub fn has_control_character(text: &str) -> (found: bool)
    ensures
        found == exists|i: int| 0 <= i < text@.len() && control(#[trigger] text@[i]),
{
    for c in it: text.chars()
        invariant
            it.seq() == text@,
            forall|i: int| 0 <= i < it.index() ==> !control(#[trigger] text@[i]),
    {
        let code: u32 = c as u32;
        if code <= 0x1f || (0x7f <= code && code <= 0x9f) {
            assert(control(text@[it.index() as int]));
            return true;
        }
    }
    false
}

/// Returns whether a running-command title summary is safe to retain.
///
/// The summary is a bounded non-empty UTF-8 string without control
/// characters. It intentionally does not attempt to parse command syntax.
pub fn is_valid_running_command(command: &str) -> (valid: bool)
    ensures
        valid == valid_running_command(command@),
{
    !command.is_empty() && command.as_bytes().len() <= MAX_RUNNING_COMMAND_BYTES
        && !has_control_character(command)
}

/// A program to run, with its arguments.
#[derive(Debug, PartialEq, Eq)]
pub struct CommandSpec {
    pub program: String,
    pub arguments: Vec<String>,
}

impl Clone for CommandSpec {
    fn clone(&self) -> (copy: Self)
        ensures
            copy.program == self.program,
            copy.arguments@ == self.arguments@,
    {
        CommandSpec { program: self.program.clone(), arguments: self.arguments.clone() }
    }
}

#[derive(Debug, Clone, Copy, PartialEq, Eq, Structural)]
pub enum SessionStatus {
    Running,
    Exited,
}

#[derive(Debug, PartialEq, Eq)]
pub struct SessionInfo {
    pub session_id: String,
    pub name: String,
    pub status: SessionStatus,
    pub created_at_ms: u64,
    pub next_sequence: u64,
    pub terminal_size: TerminalSize,
}

impl Clone for SessionInfo {
    fn clone(&self) -> (copy: Self)
        ensures
            copy == *self,
    {
        SessionInfo {
            session_id: self.session_id.clone(),
            name: self.name.clone(),
            status: self.status,
            created_at_ms: self.created_at_ms,
            next_sequence: self.next_sequence,
            terminal_size: self.terminal_size,
        }
    }
}

/// What a client says to the daemon.
#[derive(Debug, PartialEq, Eq)]
pub enum ClientMessage {
    Handshake { protocol_version: u16, client_name: String, client_version: String },
    CreateSession {
        name: Option<String>,
        command: Option<CommandSpec>,
        working_directory: Option<String>,
        terminal_size: TerminalSize,
    },
    ListSessions,
    /// Retrieves the latest shell-awareness state without creating an
    /// attachment. Command-line visibility is subject to daemon policy.
    GetShellState { session: String },
    AttachSession {
        session: String,
        resume_from: Option<u64>,
        terminal_size: TerminalSize,
        /// Claim input if no other attached client currently owns it. This never
        /// takes the lease from another client.
        request_input_lease: bool,
        /// Claim PTY layout ownership if unheld. A successful request applies the
        /// terminal size in this attach request as an explicit resize.
        request_layout_lease: bool,
        /// Request the current editable command line in shell-awareness state.
        /// The daemon may redact it according to its visibility policy.
        request_command_line: bool,
        /// Request the current running-command summary in shell-awareness state.
        /// The daemon may redact it according to its visibility policy.
        request_running_command: bool,
        /// How many undelivered output bytes the client can hold.
        presentation_window_bytes: u64,
    },
    /// Rebinds a new transport to a recently disconnected logical attachment.
    ///
    /// The opaque token is issued only in `Attached`, remains memory-only, and
    /// preserves the attachment's existing input/layout lease ownership.
    ResumeAttachment {
        session: String,
        attachment_token: String,
        resume_from: Option<u64>,
        terminal_size: TerminalSize,
        request_command_line: bool,
        request_running_command: bool,
        presentation_window_bytes: u64,
    },
    KillSession { session: String },
    Input { data: Vec<u8> },
    Resize { terminal_size: TerminalSize },
    AcquireLease { lease: LeaseKind },
    ReleaseLease { lease: LeaseKind },
    /// Confirms that an attached client is still reachable without affecting
    /// terminal input or layout ownership.
    Heartbeat { nonce: u64 },
    /// Confirms that every output byte below `sequence` was presented.
    PresentationApplied { sequence: u64 },
    Detach,
}

#[derive(Debug, Clone, Copy, PartialEq, Eq, Structural)]
pub enum ErrorCode {
    InvalidRequest,
    InvalidSessionName,
    ProtocolVersionMismatch,
    SequenceAhead,
    SessionAlreadyExists,
    SessionNotFound,
    AttachmentResumeRejected,
    InputLeaseRequired,
    LayoutLeaseRequired,
    Internal,
}

impl ErrorCode {
    pub open spec fn name(self) -> Seq<char> {
        match self {
            ErrorCode::InvalidRequest => "InvalidRequest"@,
            ErrorCode::InvalidSessionName => "InvalidSessionName"@,
            ErrorCode::ProtocolVersionMismatch => "ProtocolVersionMismatch"@,
            ErrorCode::SequenceAhead => "SequenceAhead"@,
            ErrorCode::SessionAlreadyExists => "SessionAlreadyExists"@,
            ErrorCode::SessionNotFound => "SessionNotFound"@,
            ErrorCode::AttachmentResumeRejected => "AttachmentResumeRejected"@,
            ErrorCode::InputLeaseRequired => "InputLeaseRequired"@,
            ErrorCode::LayoutLeaseRequired => "LayoutLeaseRequired"@,
            ErrorCode::Internal => "Internal"@,
        }
    }

    /// The name of the code, as messages quote it.
    pub fn label(&self) -> (label: &'static str)
        ensures
            label@ == self.name(),
    {
        match self {
            ErrorCode::InvalidRequest => "InvalidRequest",
            ErrorCode::InvalidSessionName => "InvalidSessionName",
            ErrorCode::ProtocolVersionMismatch => "ProtocolVersionMismatch",
            ErrorCode::SequenceAhead => "SequenceAhead",
            ErrorCode::SessionAlreadyExists => "SessionAlreadyExists",
            ErrorCode::SessionNotFound => "SessionNotFound",
            ErrorCode::AttachmentResumeRejected => "AttachmentResumeRejected",
            ErrorCode::InputLeaseRequired => "InputLeaseRequired",
            ErrorCode::LayoutLeaseRequired => "LayoutLeaseRequired",
            ErrorCode::Internal => "Internal",
        }
    }
}

/// What the daemon says to a client.
#[allow(inconsistent_fields)]
#[derive(Debug, PartialEq, Eq)]
pub enum ServerMessage {
    HandshakeAccepted {
        protocol_version: u16,
        server_version: String,
        /// Suggested cadence for attached-client heartbeats.
        heartbeat_interval_ms: u64,
        /// Maximum interval without client activity before an attachment expires.
        attachment_liveness_timeout_ms: u64,
    },
    SessionCreated { session: SessionInfo },
    SessionList { sessions: Vec<SessionInfo> },
    ShellStateResponse { session: SessionInfo, shell_state: ShellState },
    Attached {
        /// Opaque, memory-only credential for reconnecting this logical
        /// attachment through a replacement transport.
        attachment_token: String,
        session: SessionInfo,
        earliest_sequence: u64,
        next_sequence: u64,
        replay_from: u64,
        history_gap: bool,
        checkpoint: Option<TerminalCheckpoint>,
        history: Option<TerminalHistorySnapshot>,
        terminal_size_mismatch: bool,
        input_lease: LeaseStatus,
        layout_lease: LeaseStatus,
        /// Complete shell-awareness state at attach time. An unsupported shell
        /// produces the default unknown state rather than omitting this snapshot.
        shell_state: ShellState,
    },
    /// Confirms that the daemon processed an explicit detach and released the
    /// logical attachment without reconnect grace.
    Detached,
    LeaseStatus { lease: LeaseKind, status: LeaseStatus },
    /// Echoes an attached client's heartbeat nonce.
    HeartbeatAck { nonce: u64 },
    /// Replaces the attached client's shell-awareness state with a newer,
    /// complete session snapshot.
    ShellStateChanged { state: ShellState },
    /// Reports an authoritative PTY geometry transition to every attachment.
    ///
    /// `observed_sequence` is the raw-output next offset at the transition.
    /// The daemon sends this after every output byte below the offset and before
    /// any output byte at or above it. This changes a terminal renderer's grid;
    /// it neither grants layout ownership nor changes a client's viewport.
    PtyGeometryChanged { terminal_size: TerminalSize, observed_sequence: u64 },
    Checkpoint {
        checkpoint: TerminalCheckpoint,
        history: Option<TerminalHistorySnapshot>,
        history_gap: bool,
    },
    Output { sequence_start: u64, sequence_end: u64, data: Vec<u8> },
    SessionEnded { session_id: String, exit_code: Option<u32> },
    Success,
    Error { code: ErrorCode, message: String },
}

impl ServerMessage {
    /// Whether the message is an error with this code and text.
    pub open spec fn is_error(self, code: ErrorCode, message: Seq<char>) -> bool {
        self matches ServerMessage::Error { code: c, message: m } && c == code && m@ == message
    }
}

/// Filtering hides what the viewer may not see, keeps everything else, and
/// never turns a valid state into an invalid one.
pub proof fn visibility_never_leaks(
    state: ShellState,
    may_view_command_line: bool,
    may_view_running_command: bool,
)
    ensures
        ({
            let seen = state.visible_to(may_view_command_line, may_view_running_command);
            &&& !may_view_command_line ==> seen.current_command_line is None
            &&& !may_view_running_command ==> seen.running_command is None
            &&& seen.command_line_redacted ==> seen.current_command_line is None
            &&& seen.running_command_redacted ==> seen.running_command is None
            &&& state.metadata_valid() ==> seen.metadata_valid()
            &&& seen.revision == state.revision
            &&& seen.cwd == state.cwd
            &&& seen.prompt_phase == state.prompt_phase
        }),
{
}

/// The two visibilities are independent, and filtering twice for the same
/// viewer removes nothing more.
pub proof fn visibility_is_independent(state: ShellState, line: bool, running: bool)
    ensures
        state.visible_to(line, running).current_command_line == state.visible_to(
            line,
            !running,
        ).current_command_line,
        state.visible_to(line, running).running_command == state.visible_to(
            !line,
            running,
        ).running_command,
        state.visible_to(line, running).visible_to(line, running).current_command_line
            == state.visible_to(line, running).current_command_line,
        state.visible_to(line, running).visible_to(line, running).running_command
            == state.visible_to(line, running).running_command,
{
}

/// A viewer who may see the texts sees the state as it is, but that nothing is
/// marked as hidden; one who may not is told that a text is hidden exactly when
/// there is one.
pub proof fn hidden_text_is_marked(state: ShellState, line: bool, running: bool)
    ensures
        ({
            let seen = state.visible_to(line, running);
            &&& line ==> seen.current_command_line == state.current_command_line
            &&& running ==> seen.running_command == state.running_command
            &&& seen.command_line_redacted <==> !line && state.current_command_line is Some
            &&& seen.running_command_redacted <==> !running && state.running_command is Some
            &&& seen.observed_sequence == state.observed_sequence
            &&& seen.shell == state.shell
            &&& seen.cwd_display == state.cwd_display
            &&& seen.cwd_source == state.cwd_source
            &&& seen.process == state.process
            &&& seen.tui_hint == state.tui_hint
            &&& seen@ == state@.visible_to(line, running)
        }),
{
}

/// A state in order shows a line only while one is edited, with its cursor
/// inside, and a command only while it runs, if the shell announced that, as a
/// safe summary; and no text that is marked as hidden.
pub proof fn a_state_in_order_shows_what_fits_its_phase(shell: Shell)
    requires
        shell.metadata_valid(),
    ensures
        !(shell.line is Some && shell.running is Some),
        shell.line is Some ==> shell.phase == PromptPhase::AtPrompt || shell.phase
            == PromptPhase::Editing,
        shell.line is Some && shell.line->0.cursor is Some ==> shell.line->0.cursor->0
            <= shell.line->0.text.len(),
        shell.running is Some ==> shell.phase == PromptPhase::Running
            && shell.shell.capabilities.reports_running_command,
        shell.running matches Some(command) ==> 0 < command.len() && encode_utf8(command).len()
            <= MAX_RUNNING_COMMAND_BYTES && forall|i: int|
            0 <= i < command.len() ==> 0x20 <= #[trigger] command[i] as u32 && !(0x7f
                <= command[i] as u32 <= 0x9f),
        shell.line is Some ==> !shell.line_redacted,
        shell.running is Some ==> !shell.running_redacted,
{
    if let Some(command) = shell.running {
        assert forall|i: int| 0 <= i < command.len() implies 0x20 <= #[trigger] command[i] as u32
            && !(0x7f <= command[i] as u32 <= 0x9f) by {
            assert(!control(command[i]));
        }
    }
}

} // verus!
