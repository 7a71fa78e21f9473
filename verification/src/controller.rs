//! The renderer-neutral driver of an attachment.
//!
//! It takes in what the daemon sends, checks that the output is complete and in
//! order, and hands ordered events to a presentation layer. What the
//! presentation layer confirmed decides where a later attachment may resume.
use std::collections::VecDeque;
use vstd::prelude::*;

use crate::client::{
    AttachedSession, AttachmentCommandError, AttachmentLiveness, ClientError, ShellStateCache,
};
use crate::lease::AttachmentLeases;
use crate::proto::{
    ClientMessage, ErrorCode, LeaseKind, LeaseStatus, ServerMessage, ShellState,
    TerminalCheckpoint, TerminalHistorySnapshot, TerminalSize,
};

verus! {

/// Why an interactive attachment stopped reading or writing its transport.
#[derive(Debug, Clone, Copy, PartialEq, Eq, Structural)]
pub enum AttachExitReason {
    Detached,
    ConnectionClosed,
    SessionEnded { exit_code: Option<u32> },
}

/// The final stream position observed by an interactive attachment.
#[derive(Debug, Clone, Copy, PartialEq, Eq, Structural)]
pub struct AttachExit {
    pub reason: AttachExitReason,
    /// The last raw sequence the presentation layer explicitly acknowledged.
    ///
    /// Reconnect using this value, not the received sequence. `None` means that
    /// a reconnect must omit it and get a new checkpoint.
    pub next_sequence: Option<u64>,
    /// The last raw sequence accepted from the daemon, which can be ahead of
    /// `next_sequence` while a renderer has queued but not yet applied output.
    pub received_sequence: u64,
}

/// Configuration for a renderer-neutral attachment controller.
#[derive(Debug, Clone, Copy, PartialEq, Eq, Structural)]
pub struct AttachmentControllerOptions {
    /// Whether the presentation layer can faithfully render the attached PTY
    /// grid before it receives a checkpoint.
    pub renderer_starts_compatible: bool,
    /// Retry an unowned input lease at each heartbeat. This never displaces
    /// another attachment.
    pub reacquire_input_lease: bool,
    /// Retry an unowned layout lease at each heartbeat. This never displaces
    /// another attachment.
    pub reacquire_layout_lease: bool,
    /// Apply this explicitly chosen size once after a later successful layout
    /// lease reacquisition. It is ignored when this attachment already owned
    /// layout at startup.
    pub resize_after_layout_reacquire: Option<TerminalSize>,
    /// Maximum locally queued presentation commands before callers backpressure.
    pub command_queue_capacity: usize,
    /// Maximum ordered daemon events buffered for the presentation layer. This
    /// also bounds how many events may wait for their acknowledgement.
    pub event_queue_capacity: usize,
    /// Maximum time, in milliseconds, that a full presentation queue may stall
    /// an attachment before the controller closes it.
    pub presentation_backpressure_timeout: u64,
}

impl AttachmentControllerOptions {
    pub open spec fn usual() -> AttachmentControllerOptions {
        AttachmentControllerOptions {
            renderer_starts_compatible: true,
            reacquire_input_lease: false,
            reacquire_layout_lease: false,
            resize_after_layout_reacquire: None,
            command_queue_capacity: 64,
            event_queue_capacity: 128,
            presentation_backpressure_timeout: 30_000,
        }
    }
}

impl Default for AttachmentControllerOptions {
    fn default() -> (options: Self)
        ensures
            options == AttachmentControllerOptions::usual(),
    {
        AttachmentControllerOptions {
            renderer_starts_compatible: true,
            reacquire_input_lease: false,
            reacquire_layout_lease: false,
            resize_after_layout_reacquire: None,
            command_queue_capacity: 64,
            event_queue_capacity: 128,
            presentation_backpressure_timeout: 30_000,
        }
    }
}

/// An ordered event delivered by an [`AttachmentController`].
///
/// A renderer must reset or recreate its terminal model for a checkpoint
/// before accepting subsequent raw output; a geometry change affects the
/// PTY grid but never a client viewport or ownership lease.
#[derive(Debug, PartialEq, Eq)]
pub enum AttachmentEvent {
    Checkpoint { checkpoint: TerminalCheckpoint, history_gap: bool },
    Output { sequence_start: u64, sequence_end: u64, data: Vec<u8> },
    PtyGeometryChanged { terminal_size: TerminalSize, observed_sequence: u64 },
    LeaseStatus { lease: LeaseKind, status: LeaseStatus },
    ShellStateChanged { state: ShellState },
    HeartbeatAck { nonce: u64 },
    /// A non-fatal daemon rejection of an input or layout action.
    ServerError { code: ErrorCode, message: String },
    SessionEnded { session_id: String, exit_code: Option<u32> },
    Exited { exit: AttachExit },
}

/// Commands a presentation layer may submit to an active attachment.
///
/// Heartbeats are intentionally absent: they are generated on their own.
#[derive(Debug, PartialEq, Eq)]
pub enum AttachmentCommand {
    Input { data: Vec<u8> },
    Resize { terminal_size: TerminalSize },
    AcquireLease { lease: LeaseKind },
    ReleaseLease { lease: LeaseKind },
    Detach,
}

/// Confirms that a renderer has applied one ordered presentation event.
#[derive(Debug, Clone, Copy, PartialEq, Eq, Structural)]
pub enum PresentationAck {
    Output { sequence_end: u64 },
    Checkpoint { sequence: u64 },
    CheckpointIncompatible { sequence: u64 },
    Geometry { observed_sequence: u64 },
    GeometryIncompatible { observed_sequence: u64 },
}

/// An event that the presentation layer has not confirmed yet.
#[derive(Debug, Clone, Copy, PartialEq, Eq, Structural)]
pub enum PendingPresentation {
    Output { sequence_end: u64 },
    Checkpoint { sequence: u64 },
    Geometry { observed_sequence: u64 },
}

impl PendingPresentation {
    /// The raw sequence at which the renderer stands after the event.
    pub open spec fn position(self) -> u64 {
        match self {
            PendingPresentation::Output { sequence_end } => sequence_end,
            PendingPresentation::Checkpoint { sequence } => sequence,
            PendingPresentation::Geometry { observed_sequence } => observed_sequence,
        }
    }

    pub open spec fn name(self) -> Seq<char> {
        match self {
            PendingPresentation::Output { .. } => "output"@,
            PendingPresentation::Checkpoint { .. } => "checkpoint"@,
            PendingPresentation::Geometry { .. } => "pty geometry"@,
        }
    }
}

impl PresentationAck {
    pub open spec fn name(self) -> Seq<char> {
        match self {
            PresentationAck::Output { .. } => "output acknowledgement"@,
            PresentationAck::Checkpoint { .. } => "checkpoint acknowledgement"@,
            PresentationAck::CheckpointIncompatible { .. } =>
                "incompatible checkpoint acknowledgement"@,
            PresentationAck::Geometry { .. } => "pty geometry acknowledgement"@,
            PresentationAck::GeometryIncompatible { .. } =>
                "incompatible pty geometry acknowledgement"@,
        }
    }

    /// Whether this is an acknowledgement of an event.
    pub open spec fn answers(self, pending: PendingPresentation) -> bool {
        match (self, pending) {
            (
                PresentationAck::Output { sequence_end },
                PendingPresentation::Output { sequence_end: expected },
            ) => sequence_end == expected,
            (
                PresentationAck::Checkpoint { sequence },
                PendingPresentation::Checkpoint { sequence: expected },
            ) => sequence == expected,
            (
                PresentationAck::CheckpointIncompatible { sequence },
                PendingPresentation::Checkpoint { sequence: expected },
            ) => sequence == expected,
            (
                PresentationAck::Geometry { observed_sequence },
                PendingPresentation::Geometry { observed_sequence: expected },
            ) => observed_sequence == expected,
            (
                PresentationAck::GeometryIncompatible { observed_sequence },
                PendingPresentation::Geometry { observed_sequence: expected },
            ) => observed_sequence == expected,
            _ => false,
        }
    }
}

pub fn pending_presentation_name(pending: PendingPresentation) -> (name: &'static str)
    ensures
        name@ == pending.name(),
{
    match pending {
        PendingPresentation::Output { .. } => "output",
        PendingPresentation::Checkpoint { .. } => "checkpoint",
        PendingPresentation::Geometry { .. } => "pty geometry",
    }
}

pub fn presentation_acknowledgement_name(acknowledgement: PresentationAck) -> (name: &'static str)
    ensures
        name@ == acknowledgement.name(),
{
    match acknowledgement {
        PresentationAck::Output { .. } => "output acknowledgement",
        PresentationAck::Checkpoint { .. } => "checkpoint acknowledgement",
        PresentationAck::CheckpointIncompatible { .. } => "incompatible checkpoint acknowledgement",
        PresentationAck::Geometry { .. } => "pty geometry acknowledgement",
        PresentationAck::GeometryIncompatible { .. } => "incompatible pty geometry acknowledgement",
    }
}

/// What is known of an attachment on the client's side.
///
/// Its resume sequence is the only value with which a reconnecting caller
/// should resume. It advances only when a presentation layer acknowledges a
/// checkpoint or contiguous raw output.
pub struct AttachmentState {
    received_sequence: u64,
    resume_sequence: Option<u64>,
    leases: AttachmentLeases,
    terminal_size: TerminalSize,
    shell_state_cache: ShellStateCache,
}

impl AttachmentState {
    pub closed spec fn received(&self) -> u64 {
        self.received_sequence
    }

    pub closed spec fn resume(&self) -> Option<u64> {
        self.resume_sequence
    }

    pub closed spec fn held(&self) -> AttachmentLeases {
        self.leases
    }

    pub closed spec fn size(&self) -> TerminalSize {
        self.terminal_size
    }

    pub closed spec fn shell(&self) -> ShellState {
        self.shell_state_cache.cached()
    }

    /// Returns the raw byte sequence most recently accepted from the daemon.
    ///
    /// This can be ahead of the presentation layer and is never safe as a
    /// reconnect cursor on its own.
    pub fn received_sequence(&self) -> (sequence: u64)
        ensures
            sequence == self.received(),
    {
        self.received_sequence
    }

    /// Returns the raw byte sequence the presentation layer has applied.
    pub fn resume_sequence(&self) -> (sequence: Option<u64>)
        ensures
            sequence == self.resume(),
    {
        self.resume_sequence
    }

    /// Returns [`Self::resume_sequence`]: the safe, applied cursor, not the
    /// newest bytes received from the daemon.
    pub fn next_sequence(&self) -> (sequence: Option<u64>)
        ensures
            sequence == self.resume(),
    {
        self.resume_sequence
    }

    /// Returns current input and layout statuses as observed by this attachment.
    pub fn leases(&self) -> (leases: AttachmentLeases)
        ensures
            leases == self.held(),
    {
        self.leases
    }

    /// Returns the last authoritative PTY geometry received by this attachment.
    pub fn terminal_size(&self) -> (size: TerminalSize)
        ensures
            size == self.size(),
    {
        self.terminal_size
    }

    /// Returns the latest shell state.
    pub fn shell_state(&self) -> (state: ShellState)
        ensures
            state == self.shell(),
    {
        self.shell_state_cache.snapshot()
    }

    /// Whether input may be queued now.
    pub fn authorize_input(&self) -> (result: Result<(), AttachmentCommandError>)
        ensures
            result == if self.held().input.owned_by_client {
                Ok(())
            } else {
                Err(AttachmentCommandError::InputLeaseRequired)
            },
    {
        if self.leases.input.owned_by_client {
            Ok(())
        } else {
            Err(AttachmentCommandError::InputLeaseRequired)
        }
    }

    /// Whether a resize may be queued now.
    pub fn authorize_resize(&self) -> (result: Result<(), AttachmentCommandError>)
        ensures
            result == if self.held().layout.owned_by_client {
                Ok(())
            } else {
                Err(AttachmentCommandError::LayoutLeaseRequired)
            },
    {
        if self.leases.layout.owned_by_client {
            Ok(())
        } else {
            Err(AttachmentCommandError::LayoutLeaseRequired)
        }
    }
}

/// The mathematical content of an [`AttachmentController`].
#[verifier::ext_equal]
pub struct Progress {
    /// The sequence just past everything received.
    pub received: u64,
    /// Where a later attachment may resume.
    pub resume: Option<u64>,
    pub leases: AttachmentLeases,
    pub size: TerminalSize,
    pub shell: ShellState,
    /// Whether the renderer shows something that only a checkpoint can correct.
    pub requires_checkpoint: bool,
    /// The events that were not confirmed yet, in order.
    pub pending: Seq<PendingPresentation>,
    /// How many events may be buffered.
    pub capacity: usize,
}

/// Whether a checkpoint is among the events.
pub open spec fn awaits_checkpoint(pending: Seq<PendingPresentation>) -> bool {
    exists|i: int| 0 <= i < pending.len() && #[trigger] pending[i] is Checkpoint
}

impl Progress {
    /// Events stand in the order of their positions, none of them beyond what
    /// was received. A resume cursor stands before all of them, and there is
    /// none while the renderer needs a checkpoint.
    pub open spec fn wf(self) -> bool {
        &&& forall|i: int|
            0 <= i < self.pending.len() ==> (#[trigger] self.pending[i]).position()
                <= self.received
        &&& forall|i: int, j: int|
            0 <= i < j < self.pending.len() ==> (#[trigger] self.pending[i]).position() <= (
            #[trigger] self.pending[j]).position()
        &&& self.pending.len() <= self.capacity + 1
        &&& self.resume matches Some(resume) ==> {
            &&& !self.requires_checkpoint
            &&& !awaits_checkpoint(self.pending)
            &&& resume <= self.received
            &&& forall|i: int|
                0 <= i < self.pending.len() ==> resume <= (#[trigger] self.pending[i]).position()
        }
    }

    /// Whether no further event may wait for its acknowledgement. One more than
    /// the buffer holds may wait.
    pub open spec fn is_full(self) -> bool {
        self.pending.len() >= if self.capacity == usize::MAX {
            usize::MAX as nat
        } else {
            (self.capacity + 1) as nat
        }
    }

    /// With one more event to confirm, if there is room for it.
    pub open spec fn queued(self, event: PendingPresentation) -> Progress {
        if self.is_full() {
            self
        } else {
            Progress { pending: self.pending.push(event), ..self }
        }
    }

    /// With a lease seen in a new way.
    pub open spec fn with_lease(self, lease: LeaseKind, status: LeaseStatus) -> Progress {
        Progress {
            leases: match lease {
                LeaseKind::Input => AttachmentLeases { input: status, ..self.leases },
                LeaseKind::Layout => AttachmentLeases { layout: status, ..self.leases },
            },
            ..self
        }
    }

    /// With a lease that turned out not to be owned.
    pub open spec fn without_lease(self, lease: LeaseKind) -> Progress {
        let seen = match lease {
            LeaseKind::Input => self.leases.input,
            LeaseKind::Layout => self.leases.layout,
        };
        self.with_lease(lease, LeaseStatus { owned_by_client: false, ..seen })
    }

    /// After an acknowledgement of the first event.
    pub open spec fn acknowledged(self, acknowledgement: PresentationAck) -> Progress {
        let rest = self.pending.skip(1);
        let requires_checkpoint = match acknowledgement {
            PresentationAck::Checkpoint { .. } => false,
            PresentationAck::CheckpointIncompatible { .. } => true,
            PresentationAck::GeometryIncompatible { .. } => true,
            _ => self.requires_checkpoint,
        };
        Progress {
            pending: rest,
            requires_checkpoint,
            resume: if requires_checkpoint || awaits_checkpoint(rest) {
                None
            } else {
                match acknowledgement {
                    PresentationAck::Output { sequence_end } => Some(sequence_end),
                    PresentationAck::Checkpoint { sequence } => Some(sequence),
                    _ => self.resume,
                }
            },
            ..self
        }
    }
}

/// What a controller does after a message of the daemon.
#[derive(Debug, PartialEq, Eq)]
pub enum ControllerAction {
    Continue,
    Emit(AttachmentEvent),
    /// Hands on an event and stops for the reason.
    EmitAndExit { event: AttachmentEvent, reason: AttachExitReason },
    Exit { reason: AttachExitReason },
}

/// What an event leads to, depending on whether it may wait for its
/// acknowledgement: without room for it the attachment is given up.
pub open spec fn emitted(before: Progress, event: AttachmentEvent) -> ControllerAction {
    if before.is_full() {
        ControllerAction::Exit { reason: AttachExitReason::ConnectionClosed }
    } else {
        ControllerAction::Emit(event)
    }
}

/// What a message of the daemon does.
pub open spec fn processed(
    before: Progress,
    message: ServerMessage,
    after: Progress,
    result: Result<ControllerAction, ClientError>,
) -> bool {
    match message {
        ServerMessage::Output { sequence_start, sequence_end, data } => if sequence_start
            != before.received || sequence_start + data@.len() != sequence_end {
            &&& after == before
            &&& result == Err::<ControllerAction, _>(
                ClientError::InvalidOutputSequence {
                    expected_sequence: before.received,
                    sequence_start,
                    sequence_end,
                    data_len: data@.len() as usize,
                },
            )
        } else {
            let moved = Progress { received: sequence_end, ..before };
            &&& after == moved.queued(PendingPresentation::Output { sequence_end })
            &&& result == Ok::<_, ClientError>(
                emitted(before, AttachmentEvent::Output { sequence_start, sequence_end, data }),
            )
        },
        ServerMessage::Checkpoint { checkpoint, history: _, history_gap } =>
        if !checkpoint@.supported() {
            &&& after == before
            &&& result == Err::<ControllerAction, _>(
                ClientError::UnsupportedCheckpoint {
                    format: checkpoint.format,
                    format_version: checkpoint.format_version,
                },
            )
        } else if checkpoint.sequence < before.received {
            &&& after == before
            &&& result == Err::<ControllerAction, _>(
                ClientError::StaleCheckpoint {
                    checkpoint_sequence: checkpoint.sequence,
                    previous_sequence: before.received,
                },
            )
        } else {
            let moved = Progress {
                received: checkpoint.sequence,
                resume: None,
                requires_checkpoint: true,
                size: checkpoint.terminal_size,
                ..before
            };
            &&& after == moved.queued(
                PendingPresentation::Checkpoint { sequence: checkpoint.sequence },
            )
            &&& result == Ok::<_, ClientError>(
                emitted(before, AttachmentEvent::Checkpoint { checkpoint, history_gap }),
            )
        },
        ServerMessage::PtyGeometryChanged { terminal_size, observed_sequence } =>
        if observed_sequence < before.received {
            &&& after == before
            &&& result == Ok::<_, ClientError>(ControllerAction::Continue)
        } else if observed_sequence > before.received {
            &&& after == before
            &&& result == Err::<ControllerAction, _>(
                ClientError::GeometryAheadOfOutput {
                    expected_sequence: before.received,
                    observed_sequence,
                },
            )
        } else {
            let moved = Progress { size: terminal_size, ..before };
            &&& after == moved.queued(PendingPresentation::Geometry { observed_sequence })
            &&& result == Ok::<_, ClientError>(
                emitted(
                    before,
                    AttachmentEvent::PtyGeometryChanged { terminal_size, observed_sequence },
                ),
            )
        },
        ServerMessage::LeaseStatus { lease, status } => {
            &&& after == before.with_lease(lease, status)
            &&& result == Ok::<_, ClientError>(
                ControllerAction::Emit(AttachmentEvent::LeaseStatus { lease, status }),
            )
        },
        ServerMessage::ShellStateChanged { state } => if state.revision > before.shell.revision {
            &&& after == (Progress { shell: state, ..before })
            &&& result == Ok::<_, ClientError>(
                ControllerAction::Emit(AttachmentEvent::ShellStateChanged { state }),
            )
        } else {
            &&& after == before
            &&& result == Ok::<_, ClientError>(ControllerAction::Continue)
        },
        ServerMessage::HeartbeatAck { nonce } => {
            &&& after == before
            &&& result == Ok::<_, ClientError>(
                ControllerAction::Emit(AttachmentEvent::HeartbeatAck { nonce }),
            )
        },
        ServerMessage::SessionEnded { session_id, exit_code } => {
            &&& after == before
            &&& result == Ok::<_, ClientError>(
                ControllerAction::EmitAndExit {
                    event: AttachmentEvent::SessionEnded { session_id, exit_code },
                    reason: AttachExitReason::SessionEnded { exit_code },
                },
            )
        },
        ServerMessage::Error { code, message: text } => match code {
            ErrorCode::InputLeaseRequired => {
                &&& after == before.without_lease(LeaseKind::Input)
                &&& result == Ok::<_, ClientError>(
                    ControllerAction::Emit(AttachmentEvent::ServerError { code, message: text }),
                )
            },
            ErrorCode::LayoutLeaseRequired => {
                &&& after == before.without_lease(LeaseKind::Layout)
                &&& result == Ok::<_, ClientError>(
                    ControllerAction::Emit(AttachmentEvent::ServerError { code, message: text }),
                )
            },
            _ => {
                &&& after == before
                &&& result == Err::<ControllerAction, _>(
                    ClientError::Server { code, message: text },
                )
            },
        },
        _ => {
            &&& after == before
            &&& result is Err
            &&& result->Err_0.is_unexpected(EXPECTED_ATTACHMENT_MESSAGES@, message)
        },
    }
}

/// What an attached client expects to hear.
pub const EXPECTED_ATTACHMENT_MESSAGES: &'static str =
    "output, checkpoint, pty_geometry_changed, shell_state_changed, lease_status, heartbeat_ack, or session_ended";

/// Renderer-neutral attachment driver.
pub struct AttachmentController {
    state: AttachmentState,
    liveness: AttachmentLiveness,
    options: AttachmentControllerOptions,
    initial_checkpoint: Option<(TerminalCheckpoint, bool)>,
    /// A renderer may continue to present raw bytes after declaring a geometry
    /// incompatible, but it cannot resume safely until a checkpoint is applied.
    renderer_requires_checkpoint: bool,
    pending_presentations: VecDeque<PendingPresentation>,
}

impl View for AttachmentController {
    type V = Progress;

    closed spec fn view(&self) -> Progress {
        Progress {
            received: self.state.received_sequence,
            resume: self.state.resume_sequence,
            leases: self.state.leases,
            size: self.state.terminal_size,
            shell: self.state.shell_state_cache.cached(),
            requires_checkpoint: self.renderer_requires_checkpoint,
            pending: self.pending_presentations@,
            capacity: self.options.event_queue_capacity,
        }
    }
}

impl AttachmentController {
    pub closed spec fn terms(&self) -> AttachmentLiveness {
        self.liveness
    }

    pub closed spec fn setup(&self) -> AttachmentControllerOptions {
        self.options
    }

    /// The checkpoint that the presentation layer still has to be given.
    pub closed spec fn initial(&self) -> Option<(TerminalCheckpoint, bool)> {
        self.initial_checkpoint
    }

    /// Creates a renderer-neutral controller for a completed attachment.
    ///
    /// Refuses queues without room, a backpressure timeout of zero, and an
    /// initial checkpoint that cannot seed the raw output after it. The
    /// backpressure timeout is kept below half of the peer timeout.
    pub fn new(attached: &AttachedSession, options: AttachmentControllerOptions) -> (result: Result<
        Self,
        ClientError,
    >)
        ensures
            if options.command_queue_capacity == 0 || options.event_queue_capacity == 0 {
                result == Err::<Self, _>(
                    ClientError::InvalidAttachmentQueueCapacity {
                        command_queue_capacity: options.command_queue_capacity,
                        event_queue_capacity: options.event_queue_capacity,
                    },
                )
            } else if options.presentation_backpressure_timeout == 0 {
                result == Err::<Self, _>(ClientError::InvalidPresentationBackpressureTimeout)
            } else if attached.checkpoint is Some && !attached.checkpoint->0@.supported() {
                result == Err::<Self, _>(
                    ClientError::UnsupportedCheckpoint {
                        format: attached.checkpoint->0.format,
                        format_version: attached.checkpoint->0.format_version,
                    },
                )
            } else if attached.checkpoint is Some && attached.checkpoint->0.sequence
                != attached.replay_from {
                result == Err::<Self, _>(
                    ClientError::InvalidInitialCheckpointSequence {
                        checkpoint_sequence: attached.checkpoint->0.sequence,
                        replay_from: attached.replay_from,
                    },
                )
            } else {
                &&& result is Ok
                &&& result->Ok_0@.wf()
                &&& result->Ok_0.terms() == attached.liveness
                &&& result->Ok_0.setup() == (AttachmentControllerOptions {
                    presentation_backpressure_timeout: if attached.liveness.peer_timeout / 2
                        < options.presentation_backpressure_timeout {
                        attached.liveness.peer_timeout / 2
                    } else {
                        options.presentation_backpressure_timeout
                    },
                    ..options
                })
                &&& match (attached.checkpoint, result->Ok_0.initial()) {
                    (Some(checkpoint), Some((copy, gap))) => copy@ == checkpoint@ && gap
                        == attached.history_gap,
                    (None, None) => true,
                    _ => false,
                }
                &&& result->Ok_0@ == (Progress {
                    received: attached.replay_from,
                    resume: if options.renderer_starts_compatible && attached.checkpoint is None {
                        Some(attached.replay_from)
                    } else {
                        None
                    },
                    leases: AttachmentLeases {
                        input: attached.input_lease,
                        layout: attached.layout_lease,
                    },
                    size: match attached.checkpoint {
                        Some(checkpoint) => checkpoint.terminal_size,
                        None => attached.session.terminal_size,
                    },
                    shell: attached.shell_state,
                    requires_checkpoint: !options.renderer_starts_compatible
                        || attached.checkpoint is Some,
                    pending: Seq::empty(),
                    capacity: options.event_queue_capacity,
                })
            },
    {
        if options.command_queue_capacity == 0 || options.event_queue_capacity == 0 {
            return Err(
                ClientError::InvalidAttachmentQueueCapacity {
                    command_queue_capacity: options.command_queue_capacity,
                    event_queue_capacity: options.event_queue_capacity,
                },
            );
        }
        if options.presentation_backpressure_timeout == 0 {
            return Err(ClientError::InvalidPresentationBackpressureTimeout);
        }
        let latest_safe_timeout: u64 = attached.liveness.peer_timeout / 2;
        let mut options = options;
        if latest_safe_timeout < options.presentation_backpressure_timeout {
            options.presentation_backpressure_timeout = latest_safe_timeout;
        }
        let mut terminal_size = attached.session.terminal_size;
        let mut initial_checkpoint = None;
        if let Some(checkpoint) = &attached.checkpoint {
            match validate_checkpoint(checkpoint) {
                Ok(_) => {},
                Err(error) => {
                    return Err(error);
                },
            }
            if checkpoint.sequence != attached.replay_from {
                return Err(
                    ClientError::InvalidInitialCheckpointSequence {
                        checkpoint_sequence: checkpoint.sequence,
                        replay_from: attached.replay_from,
                    },
                );
            }
            terminal_size = checkpoint.terminal_size;
            initial_checkpoint = Some((checkpoint.clone(), attached.history_gap));
        }
        let renderer_requires_checkpoint = !options.renderer_starts_compatible
            || attached.checkpoint.is_some();
        let controller = AttachmentController {
            state: AttachmentState {
                received_sequence: attached.replay_from,
                resume_sequence: if renderer_requires_checkpoint {
                    None
                } else {
                    Some(attached.replay_from)
                },
                leases: AttachmentLeases {
                    input: attached.input_lease,
                    layout: attached.layout_lease,
                },
                terminal_size,
                shell_state_cache: attached.shell_state_cache(),
            },
            liveness: attached.liveness,
            options,
            initial_checkpoint,
            renderer_requires_checkpoint,
            pending_presentations: VecDeque::new(),
        };
        assert(controller@.pending =~= Seq::empty());
        Ok(controller)
    }

    /// What is known of the attachment.
    pub fn state(&self) -> (state: &AttachmentState)
        ensures
            state.received() == self@.received,
            state.resume() == self@.resume,
            state.held() == self@.leases,
            state.size() == self@.size,
            state.shell() == self@.shell,
    {
        &self.state
    }

    pub fn liveness(&self) -> (liveness: AttachmentLiveness)
        ensures
            liveness == self.terms(),
    {
        self.liveness
    }

    pub fn options(&self) -> (options: AttachmentControllerOptions)
        ensures
            options == self.setup(),
    {
        self.options
    }

    /// The event with which the presentation begins, if there is one: the
    /// initial checkpoint.
    pub fn start(&mut self) -> (event: Option<AttachmentEvent>)
        requires
            old(self)@.wf(),
            old(self)@.pending.len() == 0,
            old(self)@.capacity > 0,
            old(self).initial() matches Some((checkpoint, _)) ==> checkpoint.sequence == old(
                self,
            )@.received && old(self)@.requires_checkpoint,
        ensures
            final(self)@.wf(),
            final(self).initial() is None,
            final(self).terms() == old(self).terms(),
            final(self).setup() == old(self).setup(),
            match old(self).initial() {
                None => event is None && final(self)@ == old(self)@,
                Some((checkpoint, history_gap)) => {
                    &&& event == Some(AttachmentEvent::Checkpoint { checkpoint, history_gap })
                    &&& final(self)@ == old(self)@.queued(
                        PendingPresentation::Checkpoint { sequence: checkpoint.sequence },
                    )
                },
            },
    {
        let initial = self.initial_checkpoint.take();
        match initial {
            None => None,
            Some((checkpoint, history_gap)) => {
                let _queued = self.enqueue_presentation(
                    PendingPresentation::Checkpoint { sequence: checkpoint.sequence },
                );
                Some(AttachmentEvent::Checkpoint { checkpoint, history_gap })
            },
        }
    }

    /// Lets an event wait for its acknowledgement, if there is room for it.
    fn enqueue_presentation(&mut self, pending: PendingPresentation) -> (queued: bool)
        ensures
            queued == !old(self)@.is_full(),
            final(self)@ == old(self)@.queued(pending),
            final(self).initial() == old(self).initial(),
            final(self).terms() == old(self).terms(),
            final(self).setup() == old(self).setup(),
    {
        let capacity: usize = if self.options.event_queue_capacity == usize::MAX {
            usize::MAX
        } else {
            self.options.event_queue_capacity + 1
        };
        if self.pending_presentations.len() >= capacity {
            return false;
        }
        self.pending_presentations.push_back(pending);
        assert(self@.pending =~= old(self)@.pending.push(pending));
        true
    }

    /// Takes in raw output, which has to continue what was received.
    fn process_output(&mut self, sequence_start: u64, sequence_end: u64, data: Vec<u8>) -> (result:
        Result<ControllerAction, ClientError>)
        requires
            old(self)@.wf(),
        ensures
            final(self)@.wf(),
            final(self).initial() == old(self).initial(),
            final(self).terms() == old(self).terms(),
            final(self).setup() == old(self).setup(),
            processed(
                old(self)@,
                ServerMessage::Output { sequence_start, sequence_end, data },
                final(self)@,
                result,
            ),
    {
        let ghost start = self@;
        let expected_sequence: u64 = self.state.received_sequence;
        let length: u64 = data.len() as u64;
        if sequence_start != expected_sequence || sequence_end < sequence_start || sequence_end
            - sequence_start != length {
            return Err(
                ClientError::InvalidOutputSequence {
                    expected_sequence,
                    sequence_start,
                    sequence_end,
                    data_len: data.len(),
                },
            );
        }
        self.state.received_sequence = sequence_end;
        let queued = self.enqueue_presentation(PendingPresentation::Output { sequence_end });
        proof {
            no_checkpoint_added(start.pending, PendingPresentation::Output { sequence_end });
        }
        if !queued {
            return Ok(ControllerAction::Exit { reason: AttachExitReason::ConnectionClosed });
        }
        Ok(ControllerAction::Emit(AttachmentEvent::Output { sequence_start, sequence_end, data }))
    }

    /// Takes in a checkpoint, which makes the renderer start anew.
    fn process_checkpoint(
        &mut self,
        checkpoint: TerminalCheckpoint,
        history: Option<TerminalHistorySnapshot>,
        history_gap: bool,
    ) -> (result: Result<ControllerAction, ClientError>)
        requires
            old(self)@.wf(),
        ensures
            final(self)@.wf(),
            final(self).initial() == old(self).initial(),
            final(self).terms() == old(self).terms(),
            final(self).setup() == old(self).setup(),
            processed(
                old(self)@,
                ServerMessage::Checkpoint { checkpoint, history, history_gap },
                final(self)@,
                result,
            ),
    {
        match validate_checkpoint(&checkpoint) {
            Ok(_) => {},
            Err(error) => {
                return Err(error);
            },
        }
        let previous_sequence: u64 = self.state.received_sequence;
        if checkpoint.sequence < previous_sequence {
            return Err(
                ClientError::StaleCheckpoint {
                    checkpoint_sequence: checkpoint.sequence,
                    previous_sequence,
                },
            );
        }
        self.state.received_sequence = checkpoint.sequence;
        self.state.resume_sequence = None;
        self.renderer_requires_checkpoint = true;
        self.state.terminal_size = checkpoint.terminal_size;
        if !self.enqueue_presentation(
            PendingPresentation::Checkpoint { sequence: checkpoint.sequence },
        ) {
            return Ok(ControllerAction::Exit { reason: AttachExitReason::ConnectionClosed });
        }
        Ok(ControllerAction::Emit(AttachmentEvent::Checkpoint { checkpoint, history_gap }))
    }

    /// Takes in a grid change, which stands right after what was received.
    fn accept_geometry_change(&mut self, terminal_size: TerminalSize, observed_sequence: u64) -> (
    result: Result<ControllerAction, ClientError>)
        requires
            old(self)@.wf(),
        ensures
            final(self)@.wf(),
            final(self).initial() == old(self).initial(),
            final(self).terms() == old(self).terms(),
            final(self).setup() == old(self).setup(),
            processed(
                old(self)@,
                ServerMessage::PtyGeometryChanged { terminal_size, observed_sequence },
                final(self)@,
                result,
            ),
    {
        let ghost start = self@;
        let expected_sequence: u64 = self.state.received_sequence;
        if observed_sequence < expected_sequence {
            return Ok(ControllerAction::Continue);
        }
        if observed_sequence != expected_sequence {
            return Err(
                ClientError::GeometryAheadOfOutput { expected_sequence, observed_sequence },
            );
        }
        self.state.terminal_size = terminal_size;
        let queued = self.enqueue_presentation(PendingPresentation::Geometry { observed_sequence });
        proof {
            no_checkpoint_added(start.pending, PendingPresentation::Geometry { observed_sequence });
        }
        if !queued {
            return Ok(ControllerAction::Exit { reason: AttachExitReason::ConnectionClosed });
        }
        Ok(
            ControllerAction::Emit(
                AttachmentEvent::PtyGeometryChanged { terminal_size, observed_sequence },
            ),
        )
    }

    /// Takes in an error of the daemon. Only a missing lease is survived.
    fn process_server_error(&mut self, code: ErrorCode, message: String) -> (result: Result<
        ControllerAction,
        ClientError,
    >)
        requires
            old(self)@.wf(),
        ensures
            final(self)@.wf(),
            final(self).initial() == old(self).initial(),
            final(self).terms() == old(self).terms(),
            final(self).setup() == old(self).setup(),
            processed(
                old(self)@,
                ServerMessage::Error { code, message },
                final(self)@,
                result,
            ),
    {
        match code {
            ErrorCode::InputLeaseRequired => {
                self.state.leases.input.owned_by_client = false;
            },
            ErrorCode::LayoutLeaseRequired => {
                self.state.leases.layout.owned_by_client = false;
            },
            _ => {
                return Err(ClientError::Server { code, message });
            },
        }
        Ok(ControllerAction::Emit(AttachmentEvent::ServerError { code, message }))
    }

    /// Takes in a message of the daemon.
    pub fn process_server_message(&mut self, message: ServerMessage) -> (result: Result<
        ControllerAction,
        ClientError,
    >)
        requires
            old(self)@.wf(),
        ensures
            final(self)@.wf(),
            final(self).initial() == old(self).initial(),
            final(self).terms() == old(self).terms(),
            final(self).setup() == old(self).setup(),
            processed(old(self)@, message, final(self)@, result),
    {
        match message {
            ServerMessage::Output { sequence_start, sequence_end, data } => self.process_output(
                sequence_start,
                sequence_end,
                data,
            ),
            ServerMessage::Checkpoint { checkpoint, history, history_gap } =>
            self.process_checkpoint(checkpoint, history, history_gap),
            ServerMessage::PtyGeometryChanged { terminal_size, observed_sequence } =>
            self.accept_geometry_change(terminal_size, observed_sequence),
            ServerMessage::LeaseStatus { lease, status } => {
                match lease {
                    LeaseKind::Input => {
                        self.state.leases.input = status;
                    },
                    LeaseKind::Layout => {
                        self.state.leases.layout = status;
                    },
                }
                Ok(ControllerAction::Emit(AttachmentEvent::LeaseStatus { lease, status }))
            },
            ServerMessage::ShellStateChanged { state } => {
                if self.state.shell_state_cache.apply_if_newer(state.clone()) {
                    Ok(ControllerAction::Emit(AttachmentEvent::ShellStateChanged { state }))
                } else {
                    Ok(ControllerAction::Continue)
                }
            },
            ServerMessage::HeartbeatAck { nonce } => Ok(
                ControllerAction::Emit(AttachmentEvent::HeartbeatAck { nonce }),
            ),
            ServerMessage::SessionEnded { session_id, exit_code } => Ok(
                ControllerAction::EmitAndExit {
                    event: AttachmentEvent::SessionEnded { session_id, exit_code },
                    reason: AttachExitReason::SessionEnded { exit_code },
                },
            ),
            ServerMessage::Error { code, message: text } => self.process_server_error(code, text),
            response => Err(
                ClientError::UnexpectedResponse {
                    expected: EXPECTED_ATTACHMENT_MESSAGES,
                    actual: response,
                },
            ),
        }
    }

    /// Takes in that the presentation layer applied an event. Events are
    /// acknowledged in the order in which they were handed out.
    ///
    /// Returns the sequence to confirm to the daemon: everything before it was
    /// presented, even if only a later checkpoint makes it safe to resume there.
    pub fn accept_presentation_acknowledgement(&mut self, acknowledgement: PresentationAck) -> (
    result: Result<Option<u64>, ClientError>)
        requires
            old(self)@.wf(),
        ensures
            final(self)@.wf(),
            final(self).initial() == old(self).initial(),
            final(self).terms() == old(self).terms(),
            final(self).setup() == old(self).setup(),
            match result {
                Ok(confirmed) => {
                    &&& old(self)@.pending.len() > 0
                    &&& acknowledgement.answers(old(self)@.pending[0])
                    &&& final(self)@ == old(self)@.acknowledged(acknowledgement)
                    &&& confirmed == match acknowledgement {
                        PresentationAck::Output { sequence_end } => Some(sequence_end),
                        PresentationAck::Checkpoint { sequence } => Some(sequence),
                        PresentationAck::CheckpointIncompatible { sequence } => Some(sequence),
                        _ => None,
                    }
                },
                Err(error) => {
                    &&& final(self)@ == old(self)@
                    &&& error matches ClientError::UnexpectedPresentationAcknowledgement {
                        expected,
                        actual,
                    } && {
                        &&& actual@ == acknowledgement.name()
                        &&& if old(self)@.pending.len() == 0 {
                            expected@ == "no pending presentation event"@
                        } else {
                            &&& !acknowledgement.answers(old(self)@.pending[0])
                            &&& expected@ == old(self)@.pending[0].name()
                        }
                    }
                },
            },
    {
        let ghost start = self@;
        if self.pending_presentations.len() == 0 {
            return Err(
                ClientError::UnexpectedPresentationAcknowledgement {
                    expected: "no pending presentation event",
                    actual: presentation_acknowledgement_name(acknowledgement),
                },
            );
        }
        let pending = self.pending_presentations[0];
        if !answers_pending(acknowledgement, pending) {
            return Err(
                ClientError::UnexpectedPresentationAcknowledgement {
                    expected: pending_presentation_name(pending),
                    actual: presentation_acknowledgement_name(acknowledgement),
                },
            );
        }
        let _popped = self.pending_presentations.pop_front();
        assert(self@.pending =~= start.pending.skip(1));
        match acknowledgement {
            PresentationAck::Checkpoint { .. } => {
                self.renderer_requires_checkpoint = false;
            },
            PresentationAck::CheckpointIncompatible { .. } => {
                self.renderer_requires_checkpoint = true;
            },
            PresentationAck::GeometryIncompatible { .. } => {
                self.renderer_requires_checkpoint = true;
            },
            _ => {},
        }
        let checkpoint_is_pending = self.checkpoint_is_pending();
        let acknowledged: Option<u64> = match acknowledgement {
            PresentationAck::Output { sequence_end } => Some(sequence_end),
            PresentationAck::Checkpoint { sequence } => Some(sequence),
            _ => self.state.resume_sequence,
        };
        self.state.resume_sequence = if self.renderer_requires_checkpoint || checkpoint_is_pending {
            None
        } else {
            acknowledged
        };
        proof {
            let rest = self@.pending;
            assert forall|i: int| 0 <= i < rest.len() implies #[trigger] rest[i]
                == start.pending[i + 1] by {}
        }
        match acknowledgement {
            PresentationAck::Output { sequence_end } => Ok(Some(sequence_end)),
            PresentationAck::Checkpoint { sequence } => Ok(Some(sequence)),
            PresentationAck::CheckpointIncompatible { sequence } => Ok(Some(sequence)),
            _ => Ok(None),
        }
    }

    fn checkpoint_is_pending(&self) -> (found: bool)
        ensures
            found == awaits_checkpoint(self@.pending),
    {
        let mut index: usize = 0;
        while index < self.pending_presentations.len()
            invariant
                index <= self.pending_presentations@.len(),
                forall|i: int|
                    0 <= i < index ==> !(#[trigger] self.pending_presentations@[i] is Checkpoint),
            decreases self.pending_presentations@.len() - index,
        {
            if let PendingPresentation::Checkpoint { .. } = self.pending_presentations[index] {
                assert(self@.pending[index as int] is Checkpoint);
                return true;
            }
            index += 1;
        }
        false
    }

    /// How the attachment ended.
    pub fn finish(&self, reason: AttachExitReason) -> (exit: AttachExit)
        ensures
            exit == (AttachExit {
                reason,
                next_sequence: self@.resume,
                received_sequence: self@.received,
            }),
    {
        AttachExit {
            reason,
            next_sequence: self.state.resume_sequence,
            received_sequence: self.state.received_sequence,
        }
    }
}

proof fn no_checkpoint_added(pending: Seq<PendingPresentation>, event: PendingPresentation)
    requires
        !(event is Checkpoint),
    ensures
        awaits_checkpoint(pending.push(event)) == awaits_checkpoint(pending),
{
    let after = pending.push(event);
    if awaits_checkpoint(after) {
        let i = choose|i: int| 0 <= i < after.len() && #[trigger] after[i] is Checkpoint;
        assert(pending[i] is Checkpoint);
    }
    if awaits_checkpoint(pending) {
        let i = choose|i: int| 0 <= i < pending.len() && #[trigger] pending[i] is Checkpoint;
        assert(after[i] is Checkpoint);
    }
}

/// Whether an acknowledgement is that of an event.
fn answers_pending(acknowledgement: PresentationAck, pending: PendingPresentation) -> (answers: bool)
    ensures
        answers == acknowledgement.answers(pending),
{
    match (acknowledgement, pending) {
        (
            PresentationAck::Output { sequence_end },
            PendingPresentation::Output { sequence_end: expected },
        ) => sequence_end == expected,
        (
            PresentationAck::Checkpoint { sequence },
            PendingPresentation::Checkpoint { sequence: expected },
        ) => sequence == expected,
        (
            PresentationAck::CheckpointIncompatible { sequence },
            PendingPresentation::Checkpoint { sequence: expected },
        ) => sequence == expected,
        (
            PresentationAck::Geometry { observed_sequence },
            PendingPresentation::Geometry { observed_sequence: expected },
        ) => observed_sequence == expected,
        (
            PresentationAck::GeometryIncompatible { observed_sequence },
            PendingPresentation::Geometry { observed_sequence: expected },
        ) => observed_sequence == expected,
        _ => false,
    }
}

/// Whether a checkpoint can be restored.
pub fn validate_checkpoint(checkpoint: &TerminalCheckpoint) -> (result: Result<(), ClientError>)
    ensures
        result == if checkpoint@.supported() {
            Ok(())
        } else {
            Err(
                ClientError::UnsupportedCheckpoint {
                    format: checkpoint.format,
                    format_version: checkpoint.format_version,
                },
            )
        },
{
    if checkpoint.is_supported() {
        Ok(())
    } else {
        Err(
            ClientError::UnsupportedCheckpoint {
                format: checkpoint.format.clone(),
                format_version: checkpoint.format_version,
            },
        )
    }
}

/// The message that carries out a command.
pub fn command_message(command: AttachmentCommand) -> (message: ClientMessage)
    ensures
        message == match command {
            AttachmentCommand::Input { data } => ClientMessage::Input { data },
            AttachmentCommand::Resize { terminal_size } => ClientMessage::Resize { terminal_size },
            AttachmentCommand::AcquireLease { lease } => ClientMessage::AcquireLease { lease },
            AttachmentCommand::ReleaseLease { lease } => ClientMessage::ReleaseLease { lease },
            AttachmentCommand::Detach => ClientMessage::Detach,
        },
{
    match command {
        AttachmentCommand::Input { data } => ClientMessage::Input { data },
        AttachmentCommand::Resize { terminal_size } => ClientMessage::Resize { terminal_size },
        AttachmentCommand::AcquireLease { lease } => ClientMessage::AcquireLease { lease },
        AttachmentCommand::ReleaseLease { lease } => ClientMessage::ReleaseLease { lease },
        AttachmentCommand::Detach => ClientMessage::Detach,
    }
}

/// Whether the daemon was silent for too long. Times are in milliseconds.
pub fn peer_is_silent(last_activity: u64, now: u64, peer_timeout: u64) -> (silent: bool)
    ensures
        silent == if now >= last_activity {
            now - last_activity >= peer_timeout
        } else {
            peer_timeout == 0
        },
{
    if now >= last_activity {
        now - last_activity >= peer_timeout
    } else {
        peer_timeout == 0
    }
}

/// What an attachment says of its own accord.
pub struct AttachmentWriter {
    resize_after_layout_reacquire: bool,
    heartbeat_nonce: u64,
}

impl AttachmentWriter {
    /// Whether the terminal is still to be resized once the layout lease came.
    pub closed spec fn resizes(&self) -> bool {
        self.resize_after_layout_reacquire
    }

    pub closed spec fn nonce(&self) -> u64 {
        self.heartbeat_nonce
    }

    /// Resizing is considered only if the layout lease is not owned at first.
    pub fn new(state: &AttachmentState, options: &AttachmentControllerOptions) -> (writer: Self)
        ensures
            writer.resizes() == (options.reacquire_layout_lease
                && options.resize_after_layout_reacquire is Some
                && !state.held().layout.owned_by_client),
            writer.nonce() == 0,
    {
        AttachmentWriter {
            resize_after_layout_reacquire: options.reacquire_layout_lease
                && options.resize_after_layout_reacquire.is_some()
                && !state.leases.layout.owned_by_client,
            heartbeat_nonce: 0,
        }
    }

    /// What is sent when a heartbeat is due: claims of leases that are not
    /// owned, a size that waited for the layout lease, and the heartbeat.
    pub fn heartbeat(
        &mut self,
        state: &AttachmentState,
        options: &AttachmentControllerOptions,
    ) -> (messages: Vec<ClientMessage>)
        ensures
            ({
                let leases = state.held();
                let nonce = if old(self).nonce() == u64::MAX {
                    0
                } else {
                    (old(self).nonce() + 1) as u64
                };
                let input = if options.reacquire_input_lease && !leases.input.owned_by_client {
                    seq![ClientMessage::AcquireLease { lease: LeaseKind::Input }]
                } else {
                    Seq::empty()
                };
                let layout = if options.reacquire_layout_lease && !leases.layout.owned_by_client {
                    seq![ClientMessage::AcquireLease { lease: LeaseKind::Layout }]
                } else {
                    Seq::empty()
                };
                let applies = old(self).resizes() && leases.layout.owned_by_client
                    && options.resize_after_layout_reacquire is Some;
                let resize = if applies {
                    seq![
                        ClientMessage::Resize {
                            terminal_size: options.resize_after_layout_reacquire->0,
                        },
                    ]
                } else {
                    Seq::empty()
                };
                &&& messages@ == input + layout + resize + seq![ClientMessage::Heartbeat { nonce }]
                &&& final(self).nonce() == nonce
                &&& final(self).resizes() == (old(self).resizes() && !applies)
            }),
    {
        let ghost start = *self;
        let mut messages: Vec<ClientMessage> = Vec::new();
        let ghost leases = state.held();
        if options.reacquire_input_lease && !state.leases.input.owned_by_client {
            messages.push(ClientMessage::AcquireLease { lease: LeaseKind::Input });
        }
        let ghost input = messages@;
        if options.reacquire_layout_lease && !state.leases.layout.owned_by_client {
            messages.push(ClientMessage::AcquireLease { lease: LeaseKind::Layout });
        }
        let ghost layout = messages@.skip(input.len() as int);
        let ghost both = messages@;
        if self.resize_after_layout_reacquire && state.leases.layout.owned_by_client {
            if let Some(terminal_size) = options.resize_after_layout_reacquire {
                messages.push(ClientMessage::Resize { terminal_size });
                self.resize_after_layout_reacquire = false;
            }
        }
        let ghost resize = messages@.skip(both.len() as int);
        self.heartbeat_nonce = if self.heartbeat_nonce == u64::MAX {
            0
        } else {
            self.heartbeat_nonce + 1
        };
        messages.push(ClientMessage::Heartbeat { nonce: self.heartbeat_nonce });
        proof {
            let empty = Seq::<ClientMessage>::empty();
            let acquire_input = ClientMessage::AcquireLease { lease: LeaseKind::Input };
            let acquire_layout = ClientMessage::AcquireLease { lease: LeaseKind::Layout };
            if options.reacquire_input_lease && !leases.input.owned_by_client {
                assert(input =~= seq![acquire_input]);
            } else {
                assert(input =~= empty);
            }
            if options.reacquire_layout_lease && !leases.layout.owned_by_client {
                assert(layout =~= seq![acquire_layout]);
            } else {
                assert(layout =~= empty);
            }
            if start.resizes() && leases.layout.owned_by_client
                && options.resize_after_layout_reacquire is Some {
                assert(resize =~= seq![
                    ClientMessage::Resize {
                        terminal_size: options.resize_after_layout_reacquire->0,
                    },
                ]);
            } else {
                assert(resize =~= empty);
            }
            assert(messages@ =~= input + layout + resize + seq![
                ClientMessage::Heartbeat { nonce: self.heartbeat_nonce },
            ]);
        }
        messages
    }
}

/// The resume cursor never stands ahead of what was received, and there is
/// none while the renderer needs a checkpoint.
pub proof fn resume_is_never_ahead(progress: Progress)
    requires
        progress.wf(),
    ensures
        progress.resume matches Some(resume) ==> resume <= progress.received,
        progress.requires_checkpoint || awaits_checkpoint(progress.pending) ==> progress.resume
            is None,
{
}

/// Nothing that the daemon sends advances the resume cursor: it stays, or a
/// checkpoint takes it away until the renderer confirms one.
pub proof fn messages_never_advance_the_resume_cursor(
    before: Progress,
    message: ServerMessage,
    after: Progress,
    result: Result<ControllerAction, ClientError>,
)
    requires
        processed(before, message, after, result),
    ensures
        after.resume == before.resume || after.resume is None,
        after.resume != before.resume ==> message is Checkpoint,
{
}

/// Acknowledgements move the resume cursor forward only.
pub proof fn the_resume_cursor_never_goes_back(before: Progress, acknowledgement: PresentationAck)
    requires
        before.wf(),
        before.pending.len() > 0,
        acknowledgement.answers(before.pending[0]),
    ensures
        before.resume is Some && before.acknowledged(acknowledgement).resume is Some
            ==> before.resume->0 <= before.acknowledged(acknowledgement).resume->0,
        before.acknowledged(acknowledgement).resume is Some
            ==> before.acknowledged(acknowledgement).resume->0 <= before.received,
{
}

/// A renderer that cannot show the terminal's grid has no resume cursor until
/// it applies a checkpoint.
pub proof fn an_incompatible_renderer_needs_a_checkpoint(
    before: Progress,
    acknowledgement: PresentationAck,
)
    requires
        before.wf(),
        before.pending.len() > 0,
        acknowledgement.answers(before.pending[0]),
        before.requires_checkpoint,
        !(acknowledgement is Checkpoint),
    ensures
        before.acknowledged(acknowledgement).resume is None,
        before.acknowledged(acknowledgement).requires_checkpoint,
{
}

/// The output handed on is exactly what follows the output handed on before.
pub proof fn output_is_handed_on_without_gaps(
    before: Progress,
    message: ServerMessage,
    after: Progress,
    event: AttachmentEvent,
)
    requires
        processed(before, message, after, Ok(ControllerAction::Emit(event))),
        event is Output,
    ensures
        event->Output_sequence_start == before.received,
        event->Output_sequence_end == after.received,
        event->data@.len() == after.received - before.received,
        message is Output && message->Output_data == event->data,
{
}

/// Whether an event is one that the renderer has to confirm.
pub open spec fn awaits_confirmation(event: AttachmentEvent) -> bool {
    event is Output || event is Checkpoint || event is PtyGeometryChanged
}

/// Whatever changes what the renderer shows waits for its confirmation, at the
/// place in the output that was reached, and nothing else does. When more wait
/// than the buffer holds, the attachment is given up.
pub proof fn what_is_shown_awaits_confirmation(
    before: Progress,
    message: ServerMessage,
    after: Progress,
    result: Result<ControllerAction, ClientError>,
)
    requires
        before.wf(),
        before.capacity < usize::MAX,
        processed(before, message, after, result),
    ensures
        result matches Ok(ControllerAction::Emit(event)) ==> {
            &&& awaits_confirmation(event) ==> {
                &&& before.pending.len() <= before.capacity
                &&& after.pending.len() == before.pending.len() + 1
                &&& after.pending.drop_last() == before.pending
                &&& after.pending.last().position() == after.received
                &&& after.pending.last() is Output <==> event is Output
                &&& after.pending.last() is Checkpoint <==> event is Checkpoint
            }
            &&& !awaits_confirmation(event) ==> after.pending == before.pending
        },
        !(result matches Ok(ControllerAction::Emit(_))) ==> after.pending == before.pending,
        result matches Ok(ControllerAction::Exit { .. }) ==> before.pending.len()
            > before.capacity,
        before.pending.len() > before.capacity ==> !(result matches Ok(
            ControllerAction::Emit(event),
        ) && awaits_confirmation(event)),
        result is Err ==> (after.received == before.received && after.resume == before.resume
            && after.size == before.size && after.leases == before.leases),
        after.capacity == before.capacity,
{
    if let Ok(ControllerAction::Emit(event)) = result {
        if awaits_confirmation(event) {
            assert(after.pending.drop_last() =~= before.pending);
        }
    }
}

/// What is accepted from the daemon: output that continues what was received, a
/// checkpoint that does not go back behind it, and a grid change exactly at it;
/// one from before it is passed over.
pub proof fn only_what_continues_is_accepted(
    before: Progress,
    message: ServerMessage,
    after: Progress,
    result: Result<ControllerAction, ClientError>,
)
    requires
        processed(before, message, after, result),
    ensures
        after.received >= before.received,
        after.received > before.received ==> message is Output || message is Checkpoint,
        message matches ServerMessage::Output { sequence_start, sequence_end, data } ==> {
            &&& result is Ok <==> sequence_start == before.received && sequence_end
                == sequence_start + data@.len()
            &&& result is Ok ==> after.received == sequence_end && after.size == before.size
        },
        message matches ServerMessage::Checkpoint { checkpoint, .. } ==> {
            &&& result is Ok <==> checkpoint@.supported() && before.received
                <= checkpoint.sequence
            &&& result is Ok ==> after.received == checkpoint.sequence && after.size
                == checkpoint.terminal_size && after.requires_checkpoint && after.resume is None
        },
        message matches ServerMessage::PtyGeometryChanged { terminal_size, observed_sequence }
            ==> {
            &&& result is Ok <==> observed_sequence <= before.received
            &&& after.size == if observed_sequence == before.received {
                terminal_size
            } else {
                before.size
            }
            &&& observed_sequence < before.received ==> result == Ok::<_, ClientError>(
                ControllerAction::Continue,
            )
        },
        message matches ServerMessage::ShellStateChanged { state } ==> {
            &&& result is Ok
            &&& after.shell == if before.shell.revision < state.revision {
                state
            } else {
                before.shell
            }
        },
        !(message is ShellStateChanged) ==> after.shell == before.shell,
        after.size != before.size ==> message is Checkpoint || message is PtyGeometryChanged,
{
}

/// The leases that a client believes to own are those of the latest word of the
/// daemon on each; a refusal for want of a lease takes that lease away and no
/// other, and does not end the attachment.
pub proof fn leases_follow_the_daemon(
    before: Progress,
    message: ServerMessage,
    after: Progress,
    result: Result<ControllerAction, ClientError>,
)
    requires
        processed(before, message, after, result),
    ensures
        message matches ServerMessage::LeaseStatus { lease, status } ==> {
            &&& after.leases.input == if lease == LeaseKind::Input {
                status
            } else {
                before.leases.input
            }
            &&& after.leases.layout == if lease == LeaseKind::Layout {
                status
            } else {
                before.leases.layout
            }
        },
        message matches ServerMessage::Error { code, .. } ==> {
            &&& result is Ok <==> code == ErrorCode::InputLeaseRequired || code
                == ErrorCode::LayoutLeaseRequired
            &&& after.leases.input.owned_by_client <==> before.leases.input.owned_by_client && code
                != ErrorCode::InputLeaseRequired
            &&& after.leases.layout.owned_by_client <==> before.leases.layout.owned_by_client
                && code != ErrorCode::LayoutLeaseRequired
            &&& after.leases.input.held == before.leases.input.held
            &&& after.leases.layout.held == before.leases.layout.held
        },
        !(message is LeaseStatus) && !(message is Error) ==> after.leases == before.leases,
{
}

/// Confirming an event takes it, and only it, from what waits. A client can
/// resume after the output or the checkpoint that its renderer confirmed last,
/// as long as no checkpoint is outstanding.
pub proof fn confirmed_output_can_be_resumed(before: Progress, acknowledgement: PresentationAck)
    requires
        before.wf(),
        before.pending.len() > 0,
        acknowledgement.answers(before.pending[0]),
    ensures
        ({
            let after = before.acknowledged(acknowledgement);
            &&& after.pending == before.pending.skip(1)
            &&& after.received == before.received
            &&& acknowledgement matches PresentationAck::Output { sequence_end } ==> {
                &&& after.requires_checkpoint == before.requires_checkpoint
                &&& !before.requires_checkpoint && !awaits_checkpoint(after.pending)
                    ==> after.resume == Some(sequence_end)
            }
            &&& acknowledgement matches PresentationAck::Checkpoint { sequence } ==> {
                &&& !after.requires_checkpoint
                &&& !awaits_checkpoint(after.pending) ==> after.resume == Some(sequence)
            }
            &&& acknowledgement is Geometry ==> after.resume == before.resume || (
            after.resume is None && (before.requires_checkpoint || awaits_checkpoint(
                after.pending,
            )))
            &&& acknowledgement is CheckpointIncompatible || acknowledgement
                is GeometryIncompatible ==> after.requires_checkpoint && after.resume is None
        }),
{
}

/// A renderer answers an event only by the acknowledgement of its kind at its
/// place.
pub proof fn an_answer_fits_one_place(
    acknowledgement: PresentationAck,
    a: PendingPresentation,
    b: PendingPresentation,
)
    requires
        acknowledgement.answers(a),
        acknowledgement.answers(b),
    ensures
        a == b,
{
}

} // verus!
