//! The plain terminal presentation of an attachment.
use vstd::prelude::*;
use vstd::string::*;

use crate::client::{AttachedSession, AttachmentCommandError, ClientError};
use crate::controller::{
    awaits_confirmation, validate_checkpoint, AttachmentControllerOptions, AttachmentEvent,
    PendingPresentation, PresentationAck,
};
use crate::proto::{LeaseKind, LeaseStatus, TerminalCheckpoint, TerminalSize};
use crate::text::{between, decimal, decimal_text, exit_text, exit_words, prefixed, texts};

verus! {

/// The key that detaches: Ctrl-].
pub const DETACH_BYTE: u8 = 0x1d;

/// Optional automatic lease recovery for an interactive attachment.
///
/// The client retries only leases it does not own; it never asks the daemon to
/// displace another attachment.
#[derive(Debug, Clone, Copy, PartialEq, Eq, Structural)]
pub struct InteractiveAttachOptions {
    pub reacquire_input_lease: bool,
    pub reacquire_layout_lease: bool,
    /// Apply the current local terminal size once after a later layout lease
    /// acquisition. The initial attach never resizes without initial layout
    /// ownership.
    pub resize_after_layout_reacquire: bool,
}

impl InteractiveAttachOptions {
    pub open spec fn none() -> InteractiveAttachOptions {
        InteractiveAttachOptions {
            reacquire_input_lease: false,
            reacquire_layout_lease: false,
            resize_after_layout_reacquire: false,
        }
    }
}

impl Default for InteractiveAttachOptions {
    fn default() -> (options: Self)
        ensures
            options == InteractiveAttachOptions::none(),
    {
        InteractiveAttachOptions {
            reacquire_input_lease: false,
            reacquire_layout_lease: false,
            resize_after_layout_reacquire: false,
        }
    }
}

/// The local terminal's size, or a portable fallback where it is unknown.
pub fn current_terminal_size(known: Option<(u16, u16)>) -> (size: TerminalSize)
    ensures
        size == match known {
            Some((columns, rows)) => TerminalSize {
                columns,
                rows,
                pixel_width: 0,
                pixel_height: 0,
            },
            None => TerminalSize { columns: 80, rows: 24, pixel_width: 0, pixel_height: 0 },
        },
{
    let (columns, rows): (u16, u16) = match known {
        Some((columns, rows)) => (columns, rows),
        None => (80, 24),
    };
    TerminalSize { columns, rows, pixel_width: 0, pixel_height: 0 }
}

/// Whether two sizes have the same grid.
pub open spec fn same_grid(a: TerminalSize, b: TerminalSize) -> bool {
    a.columns == b.columns && a.rows == b.rows
}

pub fn terminal_grid_matches(left: &TerminalSize, right: &TerminalSize) -> (matches: bool)
    ensures
        matches == same_grid(*left, *right),
{
    left.columns == right.columns && left.rows == right.rows
}

/// The controller setup of a plain terminal.
pub fn controller_options(
    options: InteractiveAttachOptions,
    attached: &AttachedSession,
    local_terminal_size: TerminalSize,
) -> (setup: AttachmentControllerOptions)
    ensures
        setup == (AttachmentControllerOptions {
            renderer_starts_compatible: same_grid(
                local_terminal_size,
                attached.session.terminal_size,
            ),
            reacquire_input_lease: options.reacquire_input_lease,
            reacquire_layout_lease: options.reacquire_layout_lease,
            resize_after_layout_reacquire: if options.resize_after_layout_reacquire {
                Some(local_terminal_size)
            } else {
                None
            },
            ..AttachmentControllerOptions::usual()
        }),
{
    let mut setup = AttachmentControllerOptions::default();
    setup.renderer_starts_compatible = terminal_grid_matches(
        &local_terminal_size,
        &attached.session.terminal_size,
    );
    setup.reacquire_input_lease = options.reacquire_input_lease;
    setup.reacquire_layout_lease = options.reacquire_layout_lease;
    setup.resize_after_layout_reacquire = if options.resize_after_layout_reacquire {
        Some(local_terminal_size)
    } else {
        None
    };
    setup
}

/// What makes a terminal blank: a full reset, an erased screen and the cursor
/// at its corner. A checkpoint is an initialization stream, not a patch, so
/// every restore starts there.
pub open spec fn renderer_reset() -> Seq<u8> {
    seq![0x1b, 0x63, 0x1b, 0x5b, 0x32, 0x4a, 0x1b, 0x5b, 0x48]
}

/// The bytes that restore a checkpoint on a plain terminal.
pub fn restore_checkpoint(checkpoint: &TerminalCheckpoint) -> (result: Result<Vec<u8>, ClientError>)
    ensures
        match result {
            Ok(bytes) => checkpoint@.supported() && bytes@ == renderer_reset() + checkpoint@.payload
                + checkpoint@.input_prefix,
            Err(error) => !checkpoint@.supported() && error == (ClientError::UnsupportedCheckpoint {
                format: checkpoint.format,
                format_version: checkpoint.format_version,
            }),
        },
{
    match validate_checkpoint(checkpoint) {
        Ok(_) => {},
        Err(error) => {
            return Err(error);
        },
    }
    let mut bytes: Vec<u8> = Vec::new();
    bytes.push(0x1b);
    bytes.push(0x63);
    bytes.push(0x1b);
    bytes.push(0x5b);
    bytes.push(0x32);
    bytes.push(0x4a);
    bytes.push(0x1b);
    bytes.push(0x5b);
    bytes.push(0x48);
    assert(bytes@ =~= renderer_reset());
    bytes.extend_from_slice(checkpoint.payload.as_slice());
    bytes.extend_from_slice(checkpoint.input_prefix.as_slice());
    assert(bytes@ =~= renderer_reset() + checkpoint@.payload + checkpoint@.input_prefix);
    Ok(bytes)
}

/// A grid in words.
pub open spec fn grid_words(size: TerminalSize) -> Seq<char> {
    decimal(size.columns as nat) + "x"@ + decimal(size.rows as nat)
}

pub fn grid_text(size: &TerminalSize) -> (text: String)
    ensures
        text@ == grid_words(*size),
{
    between(
        decimal_text(size.columns as u64).as_str(),
        "x",
        decimal_text(size.rows as u64).as_str(),
    )
}

/// What a user is told when an attachment opens, in order.
pub open spec fn attachment_report(
    attached: AttachedSession,
    local_terminal_size: TerminalSize,
) -> Seq<Seq<char>> {
    let lost = if attached.history_gap && attached.checkpoint is None {
        seq![
            "rmux: older scrollback is no longer retained; restoring sequence "@ + decimal(
                attached.replay_from as nat,
            ),
        ]
    } else {
        Seq::empty()
    };
    let size = if attached.terminal_size_mismatch {
        seq![
            "rmux: terminal is "@ + grid_words(local_terminal_size) + ", but this session is "@
                + grid_words(attached.session.terminal_size) + "; the PTY will not be resized"@,
        ]
    } else {
        Seq::empty()
    };
    let input = if !attached.input_lease.owned_by_client {
        seq![
            "rmux: view-only attachment ("@ + if attached.input_lease.held {
                "another attachment owns input"@
            } else {
                "input was not requested"@
            } + ")"@,
        ]
    } else {
        Seq::empty()
    };
    let layout = if !attached.layout_lease.owned_by_client && attached.layout_lease.held {
        seq!["rmux: another attachment owns PTY layout"@]
    } else {
        Seq::empty()
    };
    lost + size + input + layout + seq![
        "[attached to "@ + attached.session.name@ + "; press Ctrl-] to detach]"@,
    ]
}

pub fn report_attachment(attached: &AttachedSession, local_terminal_size: &TerminalSize) -> (lines:
    Vec<String>)
    ensures
        texts(lines@) == attachment_report(*attached, *local_terminal_size),
{
    let mut lines: Vec<String> = Vec::new();
    if attached.history_gap && attached.checkpoint.is_none() {
        lines.push(
            prefixed(
                "rmux: older scrollback is no longer retained; restoring sequence ",
                decimal_text(attached.replay_from).as_str(),
            ),
        );
    }
    let ghost lost = texts(lines@);
    if attached.terminal_size_mismatch {
        let mut line = between(
            "rmux: terminal is ",
            grid_text(local_terminal_size).as_str(),
            ", but this session is ",
        );
        line.append(grid_text(&attached.session.terminal_size).as_str());
        line.append("; the PTY will not be resized");
        lines.push(line);
    }
    let ghost size = texts(lines@).skip(lost.len() as int);
    let ghost first = texts(lines@);
    if !attached.input_lease.owned_by_client {
        let reason = if attached.input_lease.held {
            "another attachment owns input"
        } else {
            "input was not requested"
        };
        lines.push(between("rmux: view-only attachment (", reason, ")"));
    }
    let ghost input = texts(lines@).skip(first.len() as int);
    let ghost second = texts(lines@);
    if !attached.layout_lease.owned_by_client && attached.layout_lease.held {
        lines.push("rmux: another attachment owns PTY layout".to_owned());
    }
    let ghost layout = texts(lines@).skip(second.len() as int);
    let ghost third = texts(lines@);
    lines.push(
        between("[attached to ", attached.session.name.as_str(), "; press Ctrl-] to detach]"),
    );
    proof {
        let local = *local_terminal_size;
        let empty = Seq::<Seq<char>>::empty();
        if attached.history_gap && attached.checkpoint is None {
            assert(lost =~= seq![
                "rmux: older scrollback is no longer retained; restoring sequence "@ + decimal(
                    attached.replay_from as nat,
                ),
            ]);
        } else {
            assert(lost =~= empty);
        }
        if attached.terminal_size_mismatch {
            assert(size =~= seq![
                "rmux: terminal is "@ + grid_words(local) + ", but this session is "@ + grid_words(
                    attached.session.terminal_size,
                ) + "; the PTY will not be resized"@,
            ]);
        } else {
            assert(size =~= empty);
        }
        if attached.input_lease.owned_by_client {
            assert(input =~= empty);
        } else {
            assert(input =~= seq![
                "rmux: view-only attachment ("@ + if attached.input_lease.held {
                    "another attachment owns input"@
                } else {
                    "input was not requested"@
                } + ")"@,
            ]);
        }
        if !attached.layout_lease.owned_by_client && attached.layout_lease.held {
            assert(layout =~= seq!["rmux: another attachment owns PTY layout"@]);
        } else {
            assert(layout =~= empty);
        }
        assert(third =~= lost + size + input + layout);
        assert(texts(lines@) =~= third + seq![
            "[attached to "@ + attached.session.name@ + "; press Ctrl-] to detach]"@,
        ]);
    }
    lines
}

/// What a run of typed bytes asks for.
#[derive(Debug, PartialEq, Eq)]
pub struct TypedInput {
    /// What is sent to the session, if there is anything.
    pub data: Option<Vec<u8>>,
    /// Whether the attachment ends after it.
    pub detach: bool,
}

/// Where the detach key stands in typed bytes.
pub open spec fn detach_position(bytes: Seq<u8>) -> Option<int>
    decreases bytes.len(),
{
    if bytes.len() == 0 {
        None
    } else {
        match detach_position(bytes.drop_last()) {
            Some(position) => Some(position),
            None => if bytes.last() == DETACH_BYTE {
                Some(bytes.len() - 1)
            } else {
                None
            },
        }
    }
}

/// Splits typed bytes at the detach key. What follows it is not sent; the end
/// of the input detaches too.
pub fn split_typed_input(bytes: &[u8]) -> (input: TypedInput)
    ensures
        match detach_position(bytes@) {
            Some(position) => {
                &&& input.detach
                &&& if position == 0 {
                    input.data is None
                } else {
                    input.data is Some && input.data->0@ == bytes@.take(position)
                }
            },
            None => {
                &&& input.detach == (bytes@.len() == 0)
                &&& if bytes@.len() == 0 {
                    input.data is None
                } else {
                    input.data is Some && input.data->0@ == bytes@
                }
            },
        },
{
    if bytes.len() == 0 {
        return TypedInput { data: None, detach: true };
    }
    let mut index: usize = 0;
    while index < bytes.len()
        invariant
            index <= bytes@.len(),
            detach_position(bytes@.take(index as int)) is None,
        decreases bytes@.len() - index,
    {
        proof {
            let taken = bytes@.take(index + 1);
            assert(taken.drop_last() =~= bytes@.take(index as int));
            assert(taken.last() == bytes@[index as int]);
        }
        if bytes[index] == DETACH_BYTE {
            proof {
                position_stays(bytes@, index + 1);
            }
            if index == 0 {
                return TypedInput { data: None, detach: true };
            }
            let data = vstd::slice::slice_to_vec(vstd::slice::slice_subrange(bytes, 0, index));
            assert(data@ =~= bytes@.take(index as int));
            return TypedInput { data: Some(data), detach: true };
        }
        index += 1;
    }
    assert(bytes@.take(index as int) =~= bytes@);
    TypedInput { data: Some(vstd::slice::slice_to_vec(bytes)), detach: false }
}

/// A detach key that was found stays where it is when more is typed.
proof fn position_stays(bytes: Seq<u8>, count: int)
    requires
        0 <= count <= bytes.len(),
        detach_position(bytes.take(count)) is Some,
    ensures
        detach_position(bytes) == detach_position(bytes.take(count)),
    decreases bytes.len(),
{
    if count == bytes.len() {
        assert(bytes.take(count) =~= bytes);
    } else {
        assert(bytes.drop_last().take(count) =~= bytes.take(count));
        position_stays(bytes.drop_last(), count);
    }
}

/// Keeps a user from being told again and again that an attachment is
/// view-only.
pub struct ViewOnlyNotice {
    reported: bool,
}

impl ViewOnlyNotice {
    /// Whether the user was told since input last went through.
    pub closed spec fn told(&self) -> bool {
        self.reported
    }

    pub fn new() -> (notice: Self)
        ensures
            !notice.told(),
    {
        ViewOnlyNotice { reported: false }
    }

    /// Takes in what became of typed input. Returns what to tell the user.
    pub fn submitted(&mut self, result: Result<(), AttachmentCommandError>) -> (outcome: Result<
        Option<&'static str>,
        ClientError,
    >)
        ensures
            match result {
                Ok(_) => {
                    &&& outcome == Ok::<Option<&'static str>, ClientError>(None)
                    &&& !final(self).told()
                },
                Err(AttachmentCommandError::InputLeaseRequired) => {
                    &&& final(self).told()
                    &&& outcome is Ok
                    &&& outcome->Ok_0 is Some <==> !old(self).told()
                    &&& outcome->Ok_0 matches Some(notice) ==> notice@
                        == "\r\n[view-only attachment; press Ctrl-] to detach]"@
                },
                Err(AttachmentCommandError::Closed) => {
                    &&& outcome == Ok::<Option<&'static str>, ClientError>(None)
                    &&& final(self).told() == old(self).told()
                },
                Err(error) => {
                    &&& outcome == Err::<Option<&'static str>, _>(
                        ClientError::AttachmentCommand(error),
                    )
                    &&& final(self).told() == old(self).told()
                },
            },
    {
        match result {
            Ok(_) => {
                self.reported = false;
                Ok(None)
            },
            Err(AttachmentCommandError::InputLeaseRequired) => {
                if self.reported {
                    return Ok(None);
                }
                self.reported = true;
                Ok(Some("\r\n[view-only attachment; press Ctrl-] to detach]"))
            },
            Err(AttachmentCommandError::Closed) => Ok(None),
            Err(error) => Err(ClientError::AttachmentCommand(error)),
        }
    }
}

/// What a plain terminal does with an event: a notice, bytes for the screen,
/// another notice, and the acknowledgement.
#[derive(Debug, PartialEq, Eq)]
pub struct Presentation {
    pub before: Option<String>,
    pub output: Vec<u8>,
    pub after: Option<String>,
    pub acknowledgement: Option<PresentationAck>,
}

/// An event that could not be shown, and the notice that stands before the
/// failure.
#[derive(Debug, PartialEq, Eq)]
pub struct FailedPresentation {
    pub before: Option<String>,
    pub error: ClientError,
}

impl Presentation {
    /// Whether the presentation consists of these parts.
    pub open spec fn shows(
        self,
        before: Option<Seq<char>>,
        output: Seq<u8>,
        after: Option<Seq<char>>,
        acknowledgement: Option<PresentationAck>,
    ) -> bool {
        &&& crate::text::optional(self.before) == before
        &&& self.output@ == output
        &&& crate::text::optional(self.after) == after
        &&& self.acknowledgement == acknowledgement
    }
}

pub fn lease_name(lease: LeaseKind) -> (name: &'static str)
    ensures
        name@ == lease_words(lease),
{
    match lease {
        LeaseKind::Input => "input",
        LeaseKind::Layout => "layout",
    }
}

pub open spec fn lease_words(lease: LeaseKind) -> Seq<char> {
    match lease {
        LeaseKind::Input => "input"@,
        LeaseKind::Layout => "layout"@,
    }
}

pub open spec fn owner_words(status: LeaseStatus) -> Seq<char> {
    if status.owned_by_client {
        "owned by this attachment"@
    } else if status.held {
        "owned by another attachment"@
    } else {
        "available"@
    }
}

/// What a plain terminal says before it restores a checkpoint.
pub open spec fn gap_notice(history_gap: bool) -> Option<Seq<char>> {
    if history_gap {
        Some("\r\n[older scrollback is no longer retained; terminal state restored]"@)
    } else {
        None
    }
}

/// What a plain terminal shows of an event. Its own size never changes, so a
/// checkpoint or a change with another grid is shown but not confirmed as
/// compatible. A checkpoint in an unknown form fails after its notice.
pub open spec fn presented(
    event: AttachmentEvent,
    local_terminal_size: TerminalSize,
    result: Result<Presentation, FailedPresentation>,
) -> bool {
    match event {
        AttachmentEvent::Checkpoint { checkpoint, history_gap } => if !checkpoint@.supported() {
            result matches Err(failed) && {
                &&& crate::text::optional(failed.before) == gap_notice(history_gap)
                &&& failed.error == (ClientError::UnsupportedCheckpoint {
                    format: checkpoint.format,
                    format_version: checkpoint.format_version,
                })
            }
        } else {
            let fits = same_grid(local_terminal_size, checkpoint.terminal_size);
            result is Ok && result->Ok_0.shows(
                gap_notice(history_gap),
                renderer_reset() + checkpoint@.payload + checkpoint@.input_prefix,
                if fits {
                    None
                } else {
                    Some(
                        "\r\n[checkpoint grid is "@ + grid_words(checkpoint.terminal_size)
                            + ", but this terminal differs; a reconnect will restore another checkpoint]"@,
                    )
                },
                if fits {
                    Some(PresentationAck::Checkpoint { sequence: checkpoint.sequence })
                } else {
                    Some(
                        PresentationAck::CheckpointIncompatible { sequence: checkpoint.sequence },
                    )
                },
            )
        },
        AttachmentEvent::Output { sequence_end, data, .. } => result is Ok && result->Ok_0.shows(
            None,
            data@,
            None,
            Some(PresentationAck::Output { sequence_end }),
        ),
        AttachmentEvent::PtyGeometryChanged { terminal_size, observed_sequence } => result is Ok
            && result->Ok_0.shows(
            Some(
                "\r\n[PTY layout is now "@ + grid_words(terminal_size)
                    + "; this local terminal was not resized, so a reconnect will restore a checkpoint]"@,
            ),
            Seq::empty(),
            None,
            Some(PresentationAck::GeometryIncompatible { observed_sequence }),
        ),
        AttachmentEvent::LeaseStatus { lease, status } => result is Ok && result->Ok_0.shows(
            Some("\r\n["@ + lease_words(lease) + " lease is "@ + owner_words(status) + "]"@),
            Seq::empty(),
            None,
            None,
        ),
        AttachmentEvent::ServerError { message, .. } => result is Ok && result->Ok_0.shows(
            Some("\r\n[rmux: "@ + message@ + "]"@),
            Seq::empty(),
            None,
            None,
        ),
        AttachmentEvent::SessionEnded { exit_code, .. } => result is Ok && result->Ok_0.shows(
            None,
            Seq::empty(),
            Some("\r\n[session ended with exit code "@ + exit_words(exit_code) + "]"@),
            None,
        ),
        _ => result is Ok && result->Ok_0.shows(None, Seq::empty(), None, None),
    }
}

fn notice(text: String) -> (presentation: Presentation)
    ensures
        presentation.shows(Some(text@), Seq::empty(), None, None),
{
    let presentation = Presentation {
        before: Some(text),
        output: Vec::new(),
        after: None,
        acknowledgement: None,
    };
    assert(presentation.output@ =~= Seq::empty());
    presentation
}

/// Shows an event on a plain terminal.
pub fn present_event(event: AttachmentEvent, local_terminal_size: TerminalSize) -> (result: Result<
    Presentation,
    FailedPresentation,
>)
    ensures
        presented(event, local_terminal_size, result),
{
    match event {
        AttachmentEvent::Checkpoint { checkpoint, history_gap } => {
            let before = if history_gap {
                Some(
                    "\r\n[older scrollback is no longer retained; terminal state restored]".to_owned(),
                )
            } else {
                None
            };
            let output = match restore_checkpoint(&checkpoint) {
                Ok(output) => output,
                Err(error) => {
                    return Err(FailedPresentation { before, error });
                },
            };
            if terminal_grid_matches(&local_terminal_size, &checkpoint.terminal_size) {
                return Ok(
                    Presentation {
                        before,
                        output,
                        after: None,
                        acknowledgement: Some(
                            PresentationAck::Checkpoint { sequence: checkpoint.sequence },
                        ),
                    },
                );
            }
            Ok(
                Presentation {
                    before,
                    output,
                    after: Some(
                        between(
                            "\r\n[checkpoint grid is ",
                            grid_text(&checkpoint.terminal_size).as_str(),
                            ", but this terminal differs; a reconnect will restore another checkpoint]",
                        ),
                    ),
                    acknowledgement: Some(
                        PresentationAck::CheckpointIncompatible { sequence: checkpoint.sequence },
                    ),
                },
            )
        },
        AttachmentEvent::Output { sequence_end, data, .. } => Ok(
            Presentation {
                before: None,
                output: data,
                after: None,
                acknowledgement: Some(PresentationAck::Output { sequence_end }),
            },
        ),
        AttachmentEvent::PtyGeometryChanged { terminal_size, observed_sequence } => {
            let mut presentation = notice(
                between(
                    "\r\n[PTY layout is now ",
                    grid_text(&terminal_size).as_str(),
                    "; this local terminal was not resized, so a reconnect will restore a checkpoint]",
                ),
            );
            presentation.acknowledgement =
            Some(PresentationAck::GeometryIncompatible { observed_sequence });
            Ok(presentation)
        },
        AttachmentEvent::LeaseStatus { lease, status } => {
            let owner = if status.owned_by_client {
                "owned by this attachment"
            } else if status.held {
                "owned by another attachment"
            } else {
                "available"
            };
            let mut text = between("\r\n[", lease_name(lease), " lease is ");
            text.append(owner);
            text.append("]");
            Ok(notice(text))
        },
        AttachmentEvent::ServerError { message, .. } => Ok(
            notice(between("\r\n[rmux: ", message.as_str(), "]")),
        ),
        AttachmentEvent::SessionEnded { exit_code, .. } => {
            let presentation = Presentation {
                before: None,
                output: Vec::new(),
                after: Some(
                    between(
                        "\r\n[session ended with exit code ",
                        exit_text(exit_code).as_str(),
                        "]",
                    ),
                ),
                acknowledgement: None,
            };
            assert(presentation.output@ =~= Seq::empty());
            Ok(presentation)
        },
        _ => {
            let presentation = Presentation {
                before: None,
                output: Vec::new(),
                after: None,
                acknowledgement: None,
            };
            assert(presentation.output@ =~= Seq::empty());
            Ok(presentation)
        },
    }
}

/// A plain terminal never confirms a grid other than its own.
pub proof fn only_a_fitting_grid_is_confirmed(
    event: AttachmentEvent,
    local_terminal_size: TerminalSize,
    presentation: Presentation,
)
    requires
        presented(event, local_terminal_size, Ok(presentation)),
        presentation.acknowledgement is Some,
        presentation.acknowledgement->0 is Checkpoint,
    ensures
        event is Checkpoint && same_grid(
            local_terminal_size,
            event->Checkpoint_checkpoint.terminal_size,
        ),
{
}

/// Every event that waits for the renderer is confirmed by the answer that fits
/// it, and nothing else is. Output reaches the terminal byte by byte, and a
/// checkpoint after a reset; no other event writes to it.
pub proof fn every_waiting_event_is_answered(
    event: AttachmentEvent,
    local_terminal_size: TerminalSize,
    presentation: Presentation,
)
    requires
        presented(event, local_terminal_size, Ok(presentation)),
    ensures
        presentation.acknowledgement is Some <==> awaits_confirmation(event),
        event matches AttachmentEvent::Output { sequence_end, data, .. } ==> {
            &&& presentation.output@ == data@
            &&& presentation.before is None && presentation.after is None
            &&& presentation.acknowledgement->0.answers(
                PendingPresentation::Output { sequence_end },
            )
        },
        event matches AttachmentEvent::Checkpoint { checkpoint, history_gap } ==> {
            &&& presentation.output@.len() == 9 + checkpoint@.payload.len()
                + checkpoint@.input_prefix.len()
            &&& presentation.output@.skip(9) == checkpoint@.payload + checkpoint@.input_prefix
            &&& presentation.before is Some <==> history_gap
            &&& presentation.after is None <==> same_grid(
                local_terminal_size,
                checkpoint.terminal_size,
            )
            &&& presentation.acknowledgement->0.answers(
                PendingPresentation::Checkpoint { sequence: checkpoint.sequence },
            )
            &&& presentation.acknowledgement->0 is Checkpoint <==> same_grid(
                local_terminal_size,
                checkpoint.terminal_size,
            )
        },
        event matches AttachmentEvent::PtyGeometryChanged { observed_sequence, .. } ==> {
            &&& presentation.acknowledgement->0.answers(
                PendingPresentation::Geometry { observed_sequence },
            )
            &&& presentation.acknowledgement->0 is GeometryIncompatible
        },
        !(event is Output) && !(event is Checkpoint) ==> presentation.output@.len() == 0,
{
    if let AttachmentEvent::Checkpoint { checkpoint, .. } = event {
        assert(presentation.output@.skip(9) =~= checkpoint@.payload + checkpoint@.input_prefix);
    }
}

/// The detach key is found where it stands first.
pub proof fn the_first_detach_key_counts(bytes: Seq<u8>)
    ensures
        match detach_position(bytes) {
            Some(position) => {
                &&& 0 <= position < bytes.len()
                &&& bytes[position] == DETACH_BYTE
                &&& forall|i: int| 0 <= i < position ==> #[trigger] bytes[i] != DETACH_BYTE
            },
            None => forall|i: int| 0 <= i < bytes.len() ==> #[trigger] bytes[i] != DETACH_BYTE,
        },
    decreases bytes.len(),
{
    if bytes.len() > 0 {
        let head = bytes.drop_last();
        the_first_detach_key_counts(head);
        assert forall|i: int| 0 <= i < head.len() implies #[trigger] bytes[i] == head[i] by {}
    }
}

/// A user is told of lost scrollback, of a grid that differs and of leases that
/// others hold exactly when it is so, and last of all how to detach.
pub proof fn an_attachment_report_tells_what_differs(
    attached: AttachedSession,
    local_terminal_size: TerminalSize,
)
    ensures
        ({
            let report = attachment_report(attached, local_terminal_size);
            let lost = attached.history_gap && attached.checkpoint is None;
            let input = !attached.input_lease.owned_by_client;
            let layout = !attached.layout_lease.owned_by_client && attached.layout_lease.held;
            let count = if lost {
                1int
            } else {
                0
            } + if attached.terminal_size_mismatch {
                1int
            } else {
                0
            } + if input {
                1int
            } else {
                0
            } + if layout {
                1int
            } else {
                0
            };
            &&& report.len() == count + 1
            &&& report.last() == "[attached to "@ + attached.session.name@
                + "; press Ctrl-] to detach]"@
        }),
{
}

} // verus!
