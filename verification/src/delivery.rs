//! How the output of a session reaches an attached client.
//!
//! A client grants a window of output bytes that it can hold. Every frame sent
//! is charged against the window until the client confirms that it presented
//! the frame, so a client that reads slowly is never flooded.
use std::collections::VecDeque;
use vstd::prelude::*;

use crate::journal::{bytes_of, chunks_of, contiguous, Chunk, JournalError, OutputChunk};
use crate::proto::{ServerMessage, Shell, ShellState, TerminalSize};
use crate::session::{Session, SessionEvent};
use crate::terminal::{a_missed_grid_change_is_restored, Boundary};

verus! {

/// The largest window that a client may grant.
pub const MAX_PRESENTATION_WINDOW_BYTES: u64 = 8_388_608;

/// What a frame is charged at least, so that many tiny frames fill a window too.
pub const MIN_OUTPUT_FRAME_CHARGE_BYTES: u64 = 4_096;

/// The largest number of output bytes in one frame.
pub const MAX_OUTPUT_FRAME_BYTES: usize = 65_536;

/// Whether a client may grant a window of this many bytes.
pub open spec fn window_valid(window_bytes: u64) -> bool {
    1 <= window_bytes <= MAX_PRESENTATION_WINDOW_BYTES
}

pub fn valid_presentation_window(window_bytes: u64) -> (valid: bool)
    ensures
        valid == window_valid(window_bytes),
{
    1 <= window_bytes && window_bytes <= MAX_PRESENTATION_WINDOW_BYTES
}

/// What a frame of `data_len` bytes is charged against a window.
pub open spec fn frame_charge(data_len: nat, window_bytes: u64) -> nat {
    let least = if window_bytes < MIN_OUTPUT_FRAME_CHARGE_BYTES {
        window_bytes
    } else {
        MIN_OUTPUT_FRAME_CHARGE_BYTES
    };
    if data_len < least {
        least as nat
    } else {
        data_len
    }
}

pub fn output_frame_charge(data_len: usize, presentation_window_bytes: u64) -> (charge: u64)
    ensures
        charge == frame_charge(data_len as nat, presentation_window_bytes),
{
    let minimum_charge: u64 = if presentation_window_bytes < MIN_OUTPUT_FRAME_CHARGE_BYTES {
        presentation_window_bytes
    } else {
        MIN_OUTPUT_FRAME_CHARGE_BYTES
    };
    let length: u64 = data_len as u64;
    if length < minimum_charge {
        minimum_charge
    } else {
        length
    }
}

/// The bytes from sequence `next` on that stand in the chunks without a gap,
/// at most `room` of them.
pub open spec fn gathered(chunks: Seq<Chunk>, next: int, room: int) -> Seq<u8>
    decreases chunks.len(),
{
    if chunks.len() == 0 || room <= 0 {
        Seq::empty()
    } else {
        let first = chunks[0];
        let rest = chunks.skip(1);
        if first.end() <= next {
            gathered(rest, next, room)
        } else if first.start > next {
            Seq::empty()
        } else {
            let left = first.data.skip(next - first.start);
            if left.len() >= room {
                left.take(room)
            } else {
                left + gathered(rest, next + left.len(), room - left.len())
            }
        }
    }
}

/// Joins chunks into one frame that starts at `sequence` and holds at most
/// `max_bytes` bytes. There is none when nothing follows the sequence.
pub fn coalesce_output_chunks(chunks: Vec<OutputChunk>, sequence: u64, max_bytes: usize) -> (frame:
    Option<OutputChunk>)
    requires
        forall|i: int| 0 <= i < chunks@.len() ==> (#[trigger] chunks@[i])@.end() <= u64::MAX,
    ensures
        ({
            let data = gathered(chunks_of(chunks@), sequence as int, max_bytes as int);
            frame matches Some(frame) && frame@ == (Chunk { start: sequence as int, data })
                && data.len() > 0 || frame is None && data.len() == 0
        }),
{
    if max_bytes == 0 {
        return None;
    }
    let ghost all = chunks_of(chunks@);
    let ghost whole = gathered(all, sequence as int, max_bytes as int);
    let mut data: Vec<u8> = Vec::new();
    let mut next_sequence: u64 = sequence;
    let mut index: usize = 0;
    assert(all.skip(0) =~= all);
    while index < chunks.len()
        invariant_except_break
            index <= chunks@.len(),
            all == chunks_of(chunks@),
            forall|i: int| 0 <= i < chunks@.len() ==> (#[trigger] chunks@[i])@.end() <= u64::MAX,
            next_sequence == sequence + data@.len(),
            data@.len() < max_bytes,
            whole == data@ + gathered(
                all.skip(index as int),
                next_sequence as int,
                max_bytes - data@.len(),
            ),
        ensures
            whole == data@,
        decreases chunks@.len() - index,
    {
        let ghost left_over = all.skip(index as int);
        proof {
            assert(left_over[0] == chunks@[index as int]@);
            assert(left_over.skip(1) =~= all.skip(index + 1));
        }
        match chunks[index].slice_from(next_sequence) {
            None => {},
            Some(part) => {
                if part.sequence_start != next_sequence {
                    assert(whole =~= data@);
                    break;
                }
                let remaining: usize = max_bytes - data.len();
                let take: usize = if remaining < part.data.len() {
                    remaining
                } else {
                    part.data.len()
                };
                let ghost before = data@;
                let piece = vstd::slice::slice_subrange(part.data.as_slice(), 0, take);
                data.extend_from_slice(piece);
                proof {
                    assert(part@.data =~= left_over[0].data.skip(
                        next_sequence - left_over[0].start,
                    ));
                    assert(data@ =~= before + part@.data.take(take as int));
                }
                next_sequence = next_sequence + take as u64;
                if data.len() == max_bytes {
                    assert(whole =~= data@);
                    break;
                }
                assert(part@.data.take(take as int) =~= part@.data);
                assert(whole =~= data@ + gathered(
                    all.skip(index + 1),
                    next_sequence as int,
                    max_bytes - data@.len(),
                ));
            },
        }
        index += 1;
    }
    if data.len() == 0 {
        None
    } else {
        Some(OutputChunk { sequence_start: sequence, data })
    }
}

/// From chunks that follow one another, as many bytes are gathered as there is
/// room for.
proof fn gathering_is_complete(chunks: Seq<Chunk>, next: int, end: int, room: int)
    requires
        contiguous(chunks, end),
        chunks.len() > 0 ==> chunks[0].start == next,
        room >= 0,
    ensures
        gathered(chunks, next, room) == if bytes_of(chunks).len() <= room {
            bytes_of(chunks)
        } else {
            bytes_of(chunks).take(room)
        },
    decreases chunks.len(),
{
    if chunks.len() == 0 {
        assert(gathered(chunks, next, room) =~= bytes_of(chunks));
    } else {
        crate::journal::first_chunk_leads(chunks, end);
        let first = chunks[0];
        let rest = chunks.skip(1);
        let all = bytes_of(chunks);
        assert(first.data.skip(0) =~= first.data);
        if room == 0 {
            assert(gathered(chunks, next, room) =~= all.take(0));
        } else if first.data.len() >= room {
            assert(gathered(chunks, next, room) =~= all.take(room));
        } else {
            gathering_is_complete(rest, first.end(), end, room - first.data.len());
            let more = gathered(rest, first.end(), room - first.data.len());
            assert(gathered(chunks, next, room) == first.data + more);
            if all.len() <= room {
                assert(first.data + more =~= all);
            } else {
                assert(first.data + more =~= all.take(room));
            }
        }
    }
}

/// A frame on its way: where it ends and what it is charged.
#[derive(Debug, Clone, Copy, PartialEq, Eq, Structural)]
pub struct OutputDelivery {
    pub sequence_end: u64,
    pub charge_bytes: u64,
}

/// The charge of all frames on their way.
pub open spec fn total_charge(frames: Seq<OutputDelivery>) -> nat
    decreases frames.len(),
{
    if frames.len() == 0 {
        0
    } else {
        total_charge(frames.drop_last()) + frames.last().charge_bytes as nat
    }
}

/// Whether frames follow one another from sequence `from` to sequence `to`,
/// each of them charged at least its length.
pub open spec fn in_order(frames: Seq<OutputDelivery>, from: int, to: int) -> bool
    decreases frames.len(),
{
    if frames.len() == 0 {
        from == to
    } else {
        let last = frames.last();
        let before = if frames.len() == 1 {
            from
        } else {
            frames[frames.len() - 2].sequence_end as int
        };
        &&& last.sequence_end == to
        &&& before < to
        &&& last.charge_bytes >= to - before
        &&& in_order(frames.drop_last(), from, before)
    }
}

/// The frames that end after `sequence`.
pub open spec fn unconfirmed(frames: Seq<OutputDelivery>, sequence: int) -> Seq<OutputDelivery>
    decreases frames.len(),
{
    if frames.len() == 0 || frames[0].sequence_end > sequence {
        frames
    } else {
        unconfirmed(frames.skip(1), sequence)
    }
}

/// Whether a frame ends at `sequence`.
pub open spec fn ends_a_frame(frames: Seq<OutputDelivery>, sequence: u64) -> bool {
    exists|i: int| 0 <= i < frames.len() && (#[trigger] frames[i]).sequence_end == sequence
}

proof fn total_charge_first(frames: Seq<OutputDelivery>)
    requires
        frames.len() > 0,
    ensures
        total_charge(frames) == frames[0].charge_bytes + total_charge(frames.skip(1)),
    decreases frames.len(),
{
    if frames.len() == 1 {
        assert(frames.drop_last() =~= Seq::empty());
        assert(frames.skip(1) =~= Seq::empty());
        assert(total_charge(frames.drop_last()) == 0);
    } else {
        total_charge_first(frames.drop_last());
        assert(frames.skip(1).drop_last() =~= frames.drop_last().skip(1));
    }
}

/// Without its first frame the row begins where that frame ended.
proof fn in_order_first(frames: Seq<OutputDelivery>, from: int, to: int)
    requires
        in_order(frames, from, to),
        frames.len() > 0,
    ensures
        from < frames[0].sequence_end <= to,
        frames[0].charge_bytes >= frames[0].sequence_end - from,
        in_order(frames.skip(1), frames[0].sequence_end as int, to),
    decreases frames.len(),
{
    let head = frames.drop_last();
    if frames.len() == 1 {
        assert(frames.skip(1) =~= Seq::empty());
    } else {
        let before = frames[frames.len() - 2].sequence_end as int;
        in_order_first(head, from, before);
        let rest = frames.skip(1);
        assert(rest.drop_last() =~= head.skip(1));
        assert(rest.last() == frames.last());
        if frames.len() == 2 {
            assert(head.skip(1) =~= Seq::empty());
            assert(rest.len() == 1);
        } else {
            assert(rest[rest.len() - 2] == frames[frames.len() - 2]);
        }
    }
}

/// The bytes on their way are covered by the charge.
proof fn charge_covers(frames: Seq<OutputDelivery>, from: int, to: int)
    requires
        in_order(frames, from, to),
    ensures
        0 <= to - from <= total_charge(frames),
    decreases frames.len(),
{
    if frames.len() > 0 {
        let before = if frames.len() == 1 {
            from
        } else {
            frames[frames.len() - 2].sequence_end as int
        };
        charge_covers(frames.drop_last(), from, before);
    }
}

proof fn ends_are_between(frames: Seq<OutputDelivery>, from: int, to: int)
    requires
        in_order(frames, from, to),
    ensures
        forall|i: int|
            0 <= i < frames.len() ==> from < (#[trigger] frames[i]).sequence_end <= to,
        forall|i: int, j: int|
            0 <= i < j < frames.len() ==> (#[trigger] frames[i]).sequence_end < (
            #[trigger] frames[j]).sequence_end,
    decreases frames.len(),
{
    if frames.len() > 0 {
        let head = frames.drop_last();
        let before = if frames.len() == 1 {
            from
        } else {
            frames[frames.len() - 2].sequence_end as int
        };
        ends_are_between(head, from, before);
        assert forall|i: int| 0 <= i < frames.len() implies from < (
        #[trigger] frames[i]).sequence_end <= to by {
            if i < head.len() {
                assert(head[i] == frames[i]);
            } else {
                charge_covers(head, from, before);
            }
        }
        assert forall|i: int, j: int| 0 <= i < j < frames.len() implies (
        #[trigger] frames[i]).sequence_end < (#[trigger] frames[j]).sequence_end by {
            assert(head[i] == frames[i]);
            if j < head.len() {
                assert(head[j] == frames[j]);
            }
        }
    }
}

/// What the daemon keeps of an attached client's output stream.
pub struct LiveAttachment {
    sent_sequence: u64,
    /// Internal ordering for geometry changes represented by the last checkpoint.
    checkpoint_geometry_revision: Option<u64>,
    shell_state_revision: u64,
    presentation_window_bytes: u64,
    applied_sequence: Option<u64>,
    in_flight_output: VecDeque<OutputDelivery>,
    in_flight_charge_bytes: u64,
    request_command_line: bool,
    request_running_command: bool,
}

/// The mathematical content of a [`LiveAttachment`].
#[verifier::ext_equal]
pub struct Stream {
    /// The sequence just past everything that was sent.
    pub sent: u64,
    /// The newest grid change that the client was told of.
    pub geometry: Option<u64>,
    /// The newest shell state that the client was sent.
    pub shell: u64,
    /// How many bytes the client can hold.
    pub window: u64,
    /// The sequence just past everything that the client presented, or nothing
    /// while a checkpoint is on its way.
    pub applied: Option<u64>,
    /// The frames on their way.
    pub frames: Seq<OutputDelivery>,
    /// Whether the client asked for the edited and for the running command.
    pub command_line: bool,
    pub running_command: bool,
}

impl Stream {
    /// The part of the window that is free.
    pub open spec fn available(self) -> int {
        self.window - total_charge(self.frames)
    }

    /// The frames on their way lead from what was presented to what was sent,
    /// and fit the window. Nothing follows a checkpoint that is on its way.
    pub open spec fn wf(self) -> bool {
        &&& window_valid(self.window)
        &&& total_charge(self.frames) <= self.window
        &&& match self.applied {
            Some(applied) => in_order(self.frames, applied as int, self.sent as int),
            None => self.frames.len() == 0,
        }
    }

    /// Why a client may not confirm a sequence.
    pub open spec fn progress_problem(self, sequence: u64) -> Option<Seq<char>> {
        if sequence > self.sent {
            Some("presentation acknowledgement is ahead of sent output"@)
        } else {
            match self.applied {
                Some(applied) => if sequence < applied {
                    Some("presentation acknowledgement regressed"@)
                } else if sequence > applied && !ends_a_frame(self.frames, sequence) {
                    Some("presentation acknowledgement is not an output frame boundary"@)
                } else {
                    None
                },
                None => if sequence != self.sent {
                    Some("presentation acknowledgement does not match the pending checkpoint"@)
                } else {
                    None
                },
            }
        }
    }

    /// After the client confirmed a sequence.
    pub open spec fn confirmed(self, sequence: u64) -> Stream {
        Stream {
            applied: Some(sequence),
            frames: unconfirmed(self.frames, sequence as int),
            ..self
        }
    }
}

impl View for LiveAttachment {
    type V = Stream;

    closed spec fn view(&self) -> Stream {
        Stream {
            sent: self.sent_sequence,
            geometry: self.checkpoint_geometry_revision,
            shell: self.shell_state_revision,
            window: self.presentation_window_bytes,
            applied: self.applied_sequence,
            frames: self.in_flight_output@,
            command_line: self.request_command_line,
            running_command: self.request_running_command,
        }
    }
}

impl LiveAttachment {
    pub closed spec fn wf(&self) -> bool {
        self@.wf() && self.in_flight_charge_bytes == total_charge(self.in_flight_output@)
    }

    /// What every well-formed attachment keeps.
    pub proof fn window_is_respected(&self)
        requires
            self.wf(),
        ensures
            self@.wf(),
    {
    }

    /// Takes in that the client presented every byte below `sequence`.
    ///
    /// Only a frame's end, the sequence confirmed last, or a pending checkpoint
    /// can be confirmed; anything else is refused in words and changes nothing.
    pub fn accept_presentation_progress(&mut self, sequence: u64) -> (result: Result<
        (),
        &'static str,
    >)
        requires
            old(self).wf(),
        ensures
            final(self).wf(),
            match result {
                Ok(_) => {
                    &&& old(self)@.progress_problem(sequence) is None
                    &&& final(self)@ == old(self)@.confirmed(sequence)
                },
                Err(problem) => {
                    &&& old(self)@.progress_problem(sequence) == Some(problem@)
                    &&& final(self)@ == old(self)@
                },
            },
    {
        let ghost start = self@;
        if sequence > self.sent_sequence {
            return Err("presentation acknowledgement is ahead of sent output");
        }
        match self.applied_sequence {
            Some(applied_sequence) => {
                proof {
                    ends_are_between(start.frames, applied_sequence as int, start.sent as int);
                }
                if sequence < applied_sequence {
                    return Err("presentation acknowledgement regressed");
                }
                if sequence == applied_sequence {
                    proof {
                        assert(unconfirmed(start.frames, sequence as int) == start.frames);
                    }
                    return Ok(());
                }
                if !self.ends_frame(sequence) {
                    return Err("presentation acknowledgement is not an output frame boundary");
                }
            },
            None => {
                if sequence != self.sent_sequence {
                    return Err(
                        "presentation acknowledgement does not match the pending checkpoint",
                    );
                }
            },
        }
        let ghost mut from: int = match start.applied {
            Some(applied) => applied as int,
            None => sequence as int,
        };
        proof {
            if start.applied is None {
                assert(in_order(start.frames, from, start.sent as int));
            }
        }
        self.applied_sequence = Some(sequence);
        while self.in_flight_output.len() > 0 && self.in_flight_output[0].sequence_end <= sequence
            invariant
                self@ == (Stream { applied: Some(sequence), frames: self@.frames, ..start }),
                unconfirmed(self@.frames, sequence as int) == unconfirmed(
                    start.frames,
                    sequence as int,
                ),
                self.in_flight_charge_bytes == total_charge(self@.frames),
                total_charge(self@.frames) <= self@.window,
                window_valid(self@.window),
                in_order(self@.frames, from, start.sent as int),
                from <= sequence,
                from == sequence || ends_a_frame(self@.frames, sequence),
            decreases self@.frames.len(),
        {
            let ghost before = self@.frames;
            proof {
                total_charge_first(before);
                in_order_first(before, from, start.sent as int);
                ends_are_between(before, from, start.sent as int);
            }
            match self.in_flight_output.pop_front() {
                Some(delivery) => {
                    self.in_flight_charge_bytes =
                    self.in_flight_charge_bytes - delivery.charge_bytes;
                },
                None => {},
            }
            proof {
                assert(self@.frames =~= before.skip(1));
                if from != sequence {
                    let i = choose|i: int|
                        0 <= i < before.len() && (#[trigger] before[i]).sequence_end == sequence;
                    if i > 0 {
                        assert(self@.frames[i - 1] == before[i]);
                    }
                }
                from = before[0].sequence_end as int;
            }
        }
        proof {
            if from != sequence {
                let i = choose|i: int|
                    0 <= i < self@.frames.len() && (#[trigger] self@.frames[i]).sequence_end
                        == sequence;
                ends_are_between(self@.frames, from, start.sent as int);
                assert(self@.frames[0].sequence_end <= self@.frames[i].sequence_end);
            }
        }
        Ok(())
    }

    /// Whether a frame on its way ends at `sequence`.
    fn ends_frame(&self, sequence: u64) -> (found: bool)
        ensures
            found == ends_a_frame(self@.frames, sequence),
    {
        let mut index: usize = 0;
        while index < self.in_flight_output.len()
            invariant
                index <= self.in_flight_output@.len(),
                forall|i: int|
                    0 <= i < index ==> (#[trigger] self.in_flight_output@[i]).sequence_end
                        != sequence,
            decreases self.in_flight_output@.len() - index,
        {
            if self.in_flight_output[index].sequence_end == sequence {
                assert(self@.frames[index as int].sequence_end == sequence);
                return true;
            }
            index += 1;
        }
        false
    }

    /// What is to be sent next, if anything is: a frame of the output that
    /// follows, or the checkpoint that replaces output the client cannot get.
    ///
    /// A checkpoint waits until every frame was confirmed, and nothing follows
    /// it before the client confirmed the checkpoint itself.
    pub fn next_output(&mut self, session: &Session) -> (result: Result<
        Option<ServerMessage>,
        JournalError,
    >)
        requires
            old(self).wf(),
            session.wf(),
        ensures
            final(self).wf(),
            result is Err <==> old(self)@.can_send() && old(self)@.sent
                > session.terminal().journal().next(),
            match result {
                Err(JournalError::SequenceAhead { requested, next }) => {
                    &&& requested == old(self)@.sent
                    &&& next == session.terminal().journal().next()
                    &&& final(self)@ == old(self)@
                },
                Ok(message) => {
                    let step = old(self)@.next_step(*session);
                    &&& final(self)@ == old(self)@.after_step(step)
                    &&& step.is_sent_as(old(self)@.sent, message)
                },
            },
    {
        let ghost start = self@;
        if self.applied_sequence.is_none() {
            return Ok(None);
        }
        let available_bytes: u64 = self.presentation_window_bytes - self.in_flight_charge_bytes;
        if available_bytes == 0 {
            return Ok(None);
        }
        let snapshot = match session.snapshot_for_delivery(
            Some(self.sent_sequence),
            self.checkpoint_geometry_revision,
        ) {
            Ok(snapshot) => snapshot,
            Err(error) => {
                return Err(error);
            },
        };
        if let Some(checkpoint) = snapshot.checkpoint {
            if self.in_flight_output.len() > 0 {
                return Ok(None);
            }
            self.sent_sequence = checkpoint.sequence;
            self.applied_sequence = None;
            self.checkpoint_geometry_revision = snapshot.checkpoint_geometry_revision;
            return Ok(
                Some(
                    ServerMessage::Checkpoint {
                        checkpoint,
                        history: snapshot.history,
                        history_gap: snapshot.history_gap,
                    },
                ),
            );
        }
        let frame_limit: usize = if available_bytes < MAX_OUTPUT_FRAME_BYTES as u64 {
            available_bytes as usize
        } else {
            MAX_OUTPUT_FRAME_BYTES
        };
        let ghost journal = session.terminal().journal();
        let ghost chunks = chunks_of(snapshot.journal.chunks@);
        proof {
            session.parts_are_consistent();
            session.terminal().terminal_is_consistent();
            journal.retention_is_bounded();
            crate::journal::first_start(chunks, journal.next() as int);
            gathering_is_complete(
                chunks,
                start.sent as int,
                journal.next() as int,
                frame_limit as int,
            );
            assert forall|i: int| 0 <= i < snapshot.journal.chunks@.len() implies (
            #[trigger] snapshot.journal.chunks@[i])@.end() <= u64::MAX by {
                crate::journal::ends_within(chunks, journal.next() as int, i);
                assert(chunks[i] == snapshot.journal.chunks@[i]@);
            }
        }
        let chunk = match coalesce_output_chunks(
            snapshot.journal.chunks,
            self.sent_sequence,
            frame_limit,
        ) {
            Some(chunk) => chunk,
            None => {
                return Ok(None);
            },
        };
        let sequence_end: u64 = chunk.sequence_end();
        let charge_bytes: u64 = output_frame_charge(
            chunk.data.len(),
            self.presentation_window_bytes,
        );
        if charge_bytes > available_bytes {
            return Ok(None);
        }
        self.sent_sequence = sequence_end;
        self.in_flight_charge_bytes = self.in_flight_charge_bytes + charge_bytes;
        self.in_flight_output.push_back(OutputDelivery { sequence_end, charge_bytes });
        proof {
            let applied = start.applied->0 as int;
            assert(self@.frames.drop_last() =~= start.frames);
            if start.frames.len() > 0 {
                assert(self@.frames[self@.frames.len() - 2] == start.frames.last());
            }
        }
        Ok(Some(chunk.into_server_message()))
    }
}

/// One step of a stream.
pub enum Step {
    Nothing,
    Frame(Seq<u8>),
    Checkpoint { boundary: Boundary, history_gap: bool },
}

impl Step {
    /// Whether a message carries the step out, for a client that was sent
    /// everything before sequence `sent`.
    pub open spec fn is_sent_as(self, sent: u64, message: Option<ServerMessage>) -> bool {
        match self {
            Step::Nothing => message is None,
            Step::Frame(bytes) => message matches Some(
                ServerMessage::Output { sequence_start, sequence_end, data },
            ) && sequence_start == sent && sequence_end == sent + bytes.len() && data@ == bytes,
            Step::Checkpoint { boundary, history_gap: gap } => message matches Some(
                ServerMessage::Checkpoint { checkpoint, history: Some(history), history_gap },
            ) && checkpoint@ == boundary.checkpoint && history@ == boundary.history
                && history_gap == gap,
        }
    }
}

impl Stream {
    /// Whether the client can take anything.
    pub open spec fn can_send(self) -> bool {
        self.applied is Some && self.available() > 0
    }

    /// The retained output after what was sent, as much as one frame holds.
    pub open spec fn next_frame(self, session: Session) -> Seq<u8> {
        let journal = session.terminal().journal();
        let left = journal.bytes().skip(self.sent - journal.earliest());
        let limit = if self.available() < MAX_OUTPUT_FRAME_BYTES {
            self.available()
        } else {
            MAX_OUTPUT_FRAME_BYTES as int
        };
        if left.len() <= limit {
            left
        } else {
            left.take(limit)
        }
    }

    /// What is sent next.
    pub open spec fn next_step(self, session: Session) -> Step {
        let journal = session.terminal().journal();
        if !self.can_send() {
            Step::Nothing
        } else {
            match session.terminal()@.checkpoint_for(
                Some(self.sent),
                self.geometry,
                journal.earliest(),
            ) {
                Some(boundary) => if self.frames.len() > 0 {
                    Step::Nothing
                } else {
                    Step::Checkpoint {
                        boundary,
                        history_gap: self.sent < boundary.checkpoint.sequence
                            || boundary.history.truncated,
                    }
                },
                None => {
                    let frame = self.next_frame(session);
                    if frame.len() == 0 || frame_charge(frame.len(), self.window)
                        > self.available() {
                        Step::Nothing
                    } else {
                        Step::Frame(frame)
                    }
                },
            }
        }
    }

    /// The stream after a step.
    pub open spec fn after_step(self, step: Step) -> Stream {
        match step {
            Step::Nothing => self,
            Step::Frame(frame) => {
                let end = (self.sent + frame.len()) as u64;
                Stream {
                    sent: end,
                    frames: self.frames.push(
                        OutputDelivery {
                            sequence_end: end,
                            charge_bytes: frame_charge(frame.len(), self.window) as u64,
                        },
                    ),
                    ..self
                }
            },
            Step::Checkpoint { boundary, .. } => Stream {
                sent: boundary.checkpoint.sequence,
                applied: None,
                geometry: Some(boundary.geometry),
                ..self
            },
        }
    }
}

/// The bytes on their way to a client never exceed the window it granted.
pub proof fn output_in_flight_fits_the_window(stream: Stream)
    requires
        stream.wf(),
        stream.applied is Some,
    ensures
        0 <= stream.sent - stream.applied->0 <= stream.window,
{
    charge_covers(stream.frames, stream.applied->0 as int, stream.sent as int);
}

/// A frame continues the stream: it holds the retained output right after
/// what was sent before, without a gap or a repetition.
pub proof fn frames_continue_the_output(stream: Stream, session: Session)
    requires
        session.wf(),
        stream.sent <= session.terminal().journal().next(),
        stream.next_step(session) is Frame,
    ensures
        ({
            let journal = session.terminal().journal();
            let after = stream.after_step(stream.next_step(session));
            let frame = stream.next_step(session)->Frame_0;
            &&& journal.earliest() <= stream.sent
            &&& stream.sent + frame.len() == after.sent <= journal.next()
            &&& frame.len() <= MAX_OUTPUT_FRAME_BYTES
            &&& frame == journal.bytes().subrange(
                stream.sent - journal.earliest(),
                after.sent - journal.earliest(),
            )
        }),
{
    let journal = session.terminal().journal();
    session.parts_are_consistent();
    session.terminal().terminal_is_consistent();
    journal.retention_is_bounded();
    let frame = stream.next_frame(session);
    assert(frame =~= journal.bytes().subrange(
        stream.sent - journal.earliest(),
        stream.sent + frame.len() - journal.earliest(),
    ));
}

/// A client that presented everything it was sent gets more as soon as the
/// session has more.
pub proof fn a_caught_up_client_is_served(stream: Stream, session: Session)
    requires
        stream.wf(),
        session.wf(),
        stream.applied == Some(stream.sent),
        stream.sent < session.terminal().journal().next(),
    ensures
        stream.next_step(session) !is Nothing,
{
    let journal = session.terminal().journal();
    session.parts_are_consistent();
    session.terminal().terminal_is_consistent();
    journal.retention_is_bounded();
    if stream.frames.len() > 0 {
        in_order_first(stream.frames, stream.sent as int, stream.sent as int);
    }
    assert(total_charge(stream.frames) == 0);
}

/// Confirming everything that was sent frees the whole window.
pub proof fn full_confirmation_frees_the_window(stream: Stream)
    requires
        stream.wf(),
    ensures
        stream.progress_problem(stream.sent) is None,
        stream.confirmed(stream.sent).frames.len() == 0,
        stream.confirmed(stream.sent).available() == stream.window,
        stream.confirmed(stream.sent).wf(),
{
    match stream.applied {
        Some(applied) => {
            ends_are_between(stream.frames, applied as int, stream.sent as int);
            if stream.frames.len() > 0 {
                assert(stream.frames[stream.frames.len() - 1].sequence_end == stream.sent);
            }
            all_confirmed(stream.frames, applied as int, stream.sent as int);
        },
        None => {},
    }
}

proof fn all_confirmed(frames: Seq<OutputDelivery>, from: int, to: int)
    requires
        in_order(frames, from, to),
    ensures
        unconfirmed(frames, to).len() == 0,
    decreases frames.len(),
{
    if frames.len() > 0 {
        in_order_first(frames, from, to);
        all_confirmed(frames.skip(1), frames[0].sequence_end as int, to);
    }
}

/// Whether a grid change was already shown to a client: by a checkpoint, or
/// because output after it was sent.
pub open spec fn geometry_is_stale(
    shown: Option<u64>,
    sent_sequence: u64,
    observed_sequence: u64,
    geometry_revision: u64,
) -> bool {
    (shown is Some && geometry_revision <= shown->0) || observed_sequence < sent_sequence
}

pub fn geometry_event_is_stale(
    checkpoint_geometry_revision: Option<u64>,
    sent_sequence: u64,
    observed_sequence: u64,
    geometry_revision: u64,
) -> (stale: bool)
    ensures
        stale == geometry_is_stale(
            checkpoint_geometry_revision,
            sent_sequence,
            observed_sequence,
            geometry_revision,
        ),
{
    let shown = match checkpoint_geometry_revision {
        Some(checkpoint_revision) => geometry_revision <= checkpoint_revision,
        None => false,
    };
    shown || observed_sequence < sent_sequence
}

/// What an attachment receives from its session.
#[derive(Debug, Clone, Copy, PartialEq, Eq, Structural)]
pub enum ReceivedEvent {
    Event(SessionEvent),
    /// Events were dropped because the attachment was too slow.
    Lagged,
    /// The session is gone.
    Closed,
}

/// What an attachment does next.
pub enum Reaction {
    Nothing,
    /// Sends all output that the client can take.
    SendOutput,
    Send(ServerMessage),
    /// Sends the output, then the shell state anew: see
    /// [`LiveAttachment::recovered_shell_state`].
    Recover,
    /// Sends a newer shell state if there is one, then the end of the session,
    /// and closes.
    End { shell_state: Option<ServerMessage>, ended: ServerMessage },
    Close,
}

/// Whether a message carries a shell state.
pub open spec fn carries_shell(message: ServerMessage, shell: Shell) -> bool {
    message matches ServerMessage::ShellStateChanged { state } && state@ == shell
}

impl Stream {
    /// The stream after a shell state was sent.
    pub open spec fn after_shell(self, revision: u64) -> Stream {
        Stream {
            shell: if revision > self.shell {
                revision
            } else {
                self.shell
            },
            ..self
        }
    }

    /// The shell state of a session as an attachment may see it.
    pub open spec fn visible_shell(self, session: Session, attachment_id: Seq<char>) -> Shell {
        let owns = session.clients().leases.input == Some(attachment_id);
        session.terminal()@.shell.visible_to(
            self.command_line && owns,
            self.running_command && owns,
        )
    }
}

impl LiveAttachment {
    /// The stream of a client that was told of a session from `sent_sequence`
    /// on, and that presented everything before it unless a checkpoint is on
    /// its way.
    pub fn new(
        sent_sequence: u64,
        checkpoint_geometry_revision: Option<u64>,
        checkpoint_pending: bool,
        shell_state_revision: u64,
        presentation_window_bytes: u64,
        request_command_line: bool,
        request_running_command: bool,
    ) -> (attachment: Self)
        requires
            window_valid(presentation_window_bytes),
        ensures
            attachment.wf(),
            attachment@ == (Stream {
                sent: sent_sequence,
                geometry: checkpoint_geometry_revision,
                shell: shell_state_revision,
                window: presentation_window_bytes,
                applied: if checkpoint_pending {
                    None
                } else {
                    Some(sent_sequence)
                },
                frames: Seq::empty(),
                command_line: request_command_line,
                running_command: request_running_command,
            }),
    {
        let attachment = LiveAttachment {
            sent_sequence,
            checkpoint_geometry_revision,
            shell_state_revision,
            presentation_window_bytes,
            applied_sequence: if checkpoint_pending {
                None
            } else {
                Some(sent_sequence)
            },
            in_flight_output: VecDeque::new(),
            in_flight_charge_bytes: 0,
            request_command_line,
            request_running_command,
        };
        assert(attachment@.frames =~= Seq::empty());
        attachment
    }

    /// Sends a shell state, unless one as new was sent before; `force` sends it
    /// in any case.
    pub fn write_shell_state_snapshot(&mut self, shell_state: ShellState, force: bool) -> (message:
        Option<ServerMessage>)
        requires
            old(self).wf(),
        ensures
            final(self).wf(),
            message is None <==> !force && shell_state.revision <= old(self)@.shell,
            match message {
                None => final(self)@ == old(self)@,
                Some(message) => {
                    &&& message == (ServerMessage::ShellStateChanged { state: shell_state })
                    &&& final(self)@ == old(self)@.after_shell(shell_state.revision)
                },
            },
    {
        if !force && shell_state.revision <= self.shell_state_revision {
            return None;
        }
        if shell_state.revision > self.shell_state_revision {
            self.shell_state_revision = shell_state.revision;
        }
        Some(ServerMessage::ShellStateChanged { state: shell_state })
    }

    /// The shell state that is sent anew after events were lost.
    pub fn recovered_shell_state(&mut self, session: &Session, attachment_id: &str) -> (message:
        ServerMessage)
        requires
            old(self).wf(),
        ensures
            final(self).wf(),
            carries_shell(message, old(self)@.visible_shell(*session, attachment_id@)),
            final(self)@ == old(self)@.after_shell(session.terminal()@.shell.revision),
    {
        let shell_state = session.shell_state_for_attachment(
            attachment_id,
            self.request_command_line,
            self.request_running_command,
        );
        if shell_state.revision > self.shell_state_revision {
            self.shell_state_revision = shell_state.revision;
        }
        ServerMessage::ShellStateChanged { state: shell_state }
    }

    /// Takes in a published shell state, and sends what the attachment may see
    /// of it if it is newer than what was sent.
    pub fn process_shell_state_update(
        &mut self,
        shell_state: ShellState,
        session: &Session,
        attachment_id: &str,
    ) -> (message: Option<ServerMessage>)
        requires
            old(self).wf(),
        ensures
            final(self).wf(),
            message is None <==> shell_state.revision <= old(self)@.shell,
            match message {
                None => final(self)@ == old(self)@,
                Some(message) => {
                    let owns = session.clients().leases.input == Some(attachment_id@);
                    &&& carries_shell(
                        message,
                        shell_state@.visible_to(
                            old(self)@.command_line && owns,
                            old(self)@.running_command && owns,
                        ),
                    )
                    &&& final(self)@ == old(self)@.after_shell(shell_state.revision)
                },
            },
    {
        if shell_state.revision <= self.shell_state_revision {
            return None;
        }
        let owns = session.owns_input_lease(attachment_id);
        let visible = shell_state.filtered_for_visibility(
            self.request_command_line && owns,
            self.request_running_command && owns,
        );
        self.write_shell_state_snapshot(visible, false)
    }

    /// Takes in a grid change of the session.
    ///
    /// A change that stands after output not yet sent is not announced: sending
    /// that output reaches it as a recovery boundary.
    pub fn process_geometry_change(
        &mut self,
        terminal_size: TerminalSize,
        observed_sequence: u64,
        geometry_revision: u64,
    ) -> (reaction: Reaction)
        requires
            old(self).wf(),
        ensures
            final(self).wf(),
            ({
                let start = old(self)@;
                if geometry_is_stale(
                    start.geometry,
                    start.sent,
                    observed_sequence,
                    geometry_revision,
                ) {
                    reaction == Reaction::Nothing && final(self)@ == start
                } else if observed_sequence > start.sent {
                    reaction == Reaction::SendOutput && final(self)@ == start
                } else {
                    &&& reaction == Reaction::Send(
                        ServerMessage::PtyGeometryChanged { terminal_size, observed_sequence },
                    )
                    &&& final(self)@ == (Stream { geometry: Some(geometry_revision), ..start })
                }
            }),
    {
        if geometry_event_is_stale(
            self.checkpoint_geometry_revision,
            self.sent_sequence,
            observed_sequence,
            geometry_revision,
        ) {
            return Reaction::Nothing;
        }
        if observed_sequence > self.sent_sequence {
            return Reaction::SendOutput;
        }
        self.checkpoint_geometry_revision = Some(geometry_revision);
        Reaction::Send(ServerMessage::PtyGeometryChanged { terminal_size, observed_sequence })
    }

    /// Takes in what the session published.
    pub fn process_session_event(
        &mut self,
        event: ReceivedEvent,
        session: &Session,
        attachment_id: &str,
    ) -> (reaction: Reaction)
        requires
            old(self).wf(),
        ensures
            final(self).wf(),
            match event {
                ReceivedEvent::Event(SessionEvent::Output) => reaction == Reaction::SendOutput
                    && final(self)@ == old(self)@,
                ReceivedEvent::Event(
                    SessionEvent::PtyGeometryChanged {
                        terminal_size,
                        observed_sequence,
                        geometry_revision,
                    },
                ) => {
                    let start = old(self)@;
                    if geometry_is_stale(
                        start.geometry,
                        start.sent,
                        observed_sequence,
                        geometry_revision,
                    ) {
                        reaction == Reaction::Nothing && final(self)@ == start
                    } else if observed_sequence > start.sent {
                        reaction == Reaction::SendOutput && final(self)@ == start
                    } else {
                        &&& reaction == Reaction::Send(
                            ServerMessage::PtyGeometryChanged { terminal_size, observed_sequence },
                        )
                        &&& final(self)@ == (Stream { geometry: Some(geometry_revision), ..start })
                    }
                },
                ReceivedEvent::Event(SessionEvent::Ended { exit_code }) => {
                    let shell = old(self)@.visible_shell(*session, attachment_id@);
                    &&& reaction matches Reaction::End { shell_state, ended } && {
                        &&& shell_state is None <==> shell.revision <= old(self)@.shell
                        &&& shell_state matches Some(message) ==> carries_shell(message, shell)
                        &&& ended matches ServerMessage::SessionEnded { session_id, exit_code: code }
                            && session_id@ == session.id() && code == exit_code
                    }
                    &&& final(self)@ == old(self)@.after_shell(shell.revision)
                },
                ReceivedEvent::Lagged => reaction == Reaction::Recover && final(self)@ == old(
                    self,
                )@,
                ReceivedEvent::Closed => reaction == Reaction::Close && final(self)@ == old(self)@,
            },
    {
        match event {
            ReceivedEvent::Event(SessionEvent::Output) => Reaction::SendOutput,
            ReceivedEvent::Event(
                SessionEvent::PtyGeometryChanged {
                    terminal_size,
                    observed_sequence,
                    geometry_revision,
                },
            ) => self.process_geometry_change(terminal_size, observed_sequence, geometry_revision),
            ReceivedEvent::Event(SessionEvent::Ended { exit_code }) => {
                let shell_state = session.shell_state_for_attachment(
                    attachment_id,
                    self.request_command_line,
                    self.request_running_command,
                );
                let shell_state = self.write_shell_state_snapshot(shell_state, false);
                let ended = ServerMessage::SessionEnded {
                    session_id: session.info().session_id,
                    exit_code,
                };
                Reaction::End { shell_state, ended }
            },
            ReceivedEvent::Lagged => Reaction::Recover,
            ReceivedEvent::Closed => Reaction::Close,
        }
    }

    pub fn requests_command_text(&self) -> (requests: bool)
        ensures
            requests == (self@.command_line || self@.running_command),
    {
        self.request_command_line || self.request_running_command
    }
}

/// A frame costs at least its bytes, and a small one at least the least charge
/// as far as the window goes, so that no window holds many tiny frames.
pub proof fn a_frame_is_charged_its_bytes(data_len: nat, window_bytes: u64)
    ensures
        frame_charge(data_len, window_bytes) >= data_len,
        frame_charge(data_len, window_bytes) >= MIN_OUTPUT_FRAME_CHARGE_BYTES || frame_charge(
            data_len,
            window_bytes,
        ) >= window_bytes,
        data_len >= MIN_OUTPUT_FRAME_CHARGE_BYTES ==> frame_charge(data_len, window_bytes)
            == data_len,
        data_len <= window_bytes ==> frame_charge(data_len, window_bytes) <= window_bytes,
        frame_charge(data_len, window_bytes) <= data_len + MIN_OUTPUT_FRAME_CHARGE_BYTES,
{
}

/// What a client is sent: never output past a grid change that it has not
/// seen, and never a checkpoint while frames are on their way; a client that
/// fell behind the retained output is restored by a checkpoint, which shows the
/// current grid. While a checkpoint is not confirmed, nothing follows it.
pub proof fn recovery_comes_before_output(stream: Stream, session: Session)
    requires
        stream.wf(),
        session.wf(),
    ensures
        ({
            let terminal = session.terminal()@;
            let journal = session.terminal().journal();
            let needs = stream.sent < journal.earliest() || terminal.misses_the_grid_at(
                stream.geometry,
                stream.sent,
            );
            let step = stream.next_step(session);
            let after = stream.after_step(step);
            &&& step is Frame ==> !needs
            &&& step is Checkpoint <==> needs && stream.applied is Some && stream.frames.len() == 0
            &&& step matches Step::Checkpoint { boundary, history_gap } ==> {
                &&& boundary.checkpoint.terminal_size == terminal.display.size
                &&& after.geometry == Some(terminal.geometry)
                &&& after.sent == boundary.checkpoint.sequence
                &&& history_gap <==> stream.sent < after.sent || boundary.history.truncated
                &&& !terminal.misses_the_grid_at(after.geometry, after.sent)
                &&& after.next_step(session) is Nothing
                &&& after.progress_problem(boundary.checkpoint.sequence) is None
                &&& after.confirmed(boundary.checkpoint.sequence).applied == Some(after.sent)
            }
            &&& after.window == stream.window && after.shell == stream.shell
            &&& after.command_line == stream.command_line && after.running_command
                == stream.running_command
        }),
{
    session.parts_are_consistent();
    session.terminal().terminal_is_consistent();
    session.terminal().journal().retention_is_bounded();
    a_missed_grid_change_is_restored(
        session.terminal()@,
        Some(stream.sent),
        stream.geometry,
        session.terminal().journal().earliest(),
        session.terminal().journal().next(),
    );
    assert(total_charge(Seq::<OutputDelivery>::empty()) == 0);
    if stream.frames.len() == 0 {
        assert(stream.frames =~= Seq::empty());
    }
}

/// A frame is as long as can be: it holds all the output that is left, or as
/// many bytes as a frame holds, or as the window has room for.
pub proof fn frames_are_as_long_as_can_be(stream: Stream, session: Session)
    requires
        session.wf(),
        stream.sent <= session.terminal().journal().next(),
        stream.next_step(session) is Frame,
    ensures
        ({
            let after = stream.after_step(stream.next_step(session));
            let length = after.sent - stream.sent;
            &&& length > 0
            &&& length == MAX_OUTPUT_FRAME_BYTES || length == stream.available() || after.sent
                == session.terminal().journal().next()
            &&& after.available() == stream.available() - frame_charge(
                length as nat,
                stream.window,
            )
            &&& after.applied == stream.applied && after.geometry == stream.geometry
        }),
{
    let journal = session.terminal().journal();
    session.parts_are_consistent();
    session.terminal().terminal_is_consistent();
    journal.retention_is_bounded();
    let after = stream.after_step(stream.next_step(session));
    assert(after.frames.drop_last() =~= stream.frames);
}

/// Exactly the frames that end at or before a confirmed sequence are no longer
/// on their way, and the rest stay in order.
pub proof fn confirming_takes_the_frames_before(stream: Stream, at: int)
    requires
        stream.wf(),
        stream.applied is Some,
        0 <= at < stream.frames.len(),
    ensures
        ({
            let sequence = stream.frames[at].sequence_end;
            &&& stream.progress_problem(sequence) is None
            &&& stream.confirmed(sequence).frames == stream.frames.skip(at + 1)
            &&& stream.confirmed(sequence).applied == Some(sequence)
            &&& stream.confirmed(sequence).sent == stream.sent
        }),
{
    let from = stream.applied->0 as int;
    let to = stream.sent as int;
    ends_are_between(stream.frames, from, to);
    confirmed_prefix(stream.frames, at);
}

proof fn confirmed_prefix(frames: Seq<OutputDelivery>, at: int)
    requires
        0 <= at < frames.len(),
        forall|i: int, j: int|
            0 <= i < j < frames.len() ==> (#[trigger] frames[i]).sequence_end < (
            #[trigger] frames[j]).sequence_end,
    ensures
        unconfirmed(frames, frames[at].sequence_end as int) == frames.skip(at + 1),
    decreases frames.len(),
{
    let sequence = frames[at].sequence_end as int;
    let rest = frames.skip(1);
    if at > 0 {
        assert(frames[0].sequence_end < frames[at].sequence_end);
        assert forall|i: int, j: int| 0 <= i < j < rest.len() implies (
        #[trigger] rest[i]).sequence_end < (#[trigger] rest[j]).sequence_end by {
            assert(rest[i] == frames[i + 1] && rest[j] == frames[j + 1]);
        }
        assert(rest[at - 1] == frames[at]);
        confirmed_prefix(rest, at - 1);
        assert(rest.skip(at) =~= frames.skip(at + 1));
    } else {
        assert(unconfirmed(frames, sequence) == unconfirmed(rest, sequence));
        if rest.len() > 0 {
            assert(rest[0] == frames[1]);
        }
    }
}

/// A client may confirm the sequence that it confirmed before and the end of
/// each frame on its way, or the checkpoint that it was sent, and nothing else.
pub proof fn only_what_was_sent_is_confirmed(stream: Stream, sequence: u64)
    requires
        stream.wf(),
    ensures
        stream.progress_problem(sequence) is None <==> match stream.applied {
            Some(applied) => sequence == applied || ends_a_frame(stream.frames, sequence),
            None => sequence == stream.sent,
        },
{
    if stream.applied is Some {
        ends_are_between(stream.frames, stream.applied->0 as int, stream.sent as int);
        if stream.frames.len() == 0 {
            assert(stream.applied->0 == stream.sent);
        }
    }
}

/// A grid change is told to a client that has not seen it, and only from the
/// place in the output where it came; once told, it is not told again.
pub proof fn a_grid_change_is_told_once(
    shown: Option<u64>,
    sent: u64,
    observed: u64,
    revision: u64,
)
    ensures
        geometry_is_stale(Some(revision), sent, observed, revision),
        shown is None && sent <= observed ==> !geometry_is_stale(shown, sent, observed, revision),
        shown is Some && shown->0 < revision && sent <= observed ==> !geometry_is_stale(
            shown,
            sent,
            observed,
            revision,
        ),
        observed < sent ==> geometry_is_stale(shown, sent, observed, revision),
{
}

/// An attachment sees command text only while it owns the input lease, and
/// then what it asked for; everything else of the shell state it always sees.
pub proof fn command_text_is_for_the_input_owner(
    stream: Stream,
    session: Session,
    attachment_id: Seq<char>,
)
    ensures
        ({
            let shell = session.terminal()@.shell;
            let seen = stream.visible_shell(session, attachment_id);
            let owns = session.clients().leases.input == Some(attachment_id);
            &&& seen.line == if owns && stream.command_line {
                shell.line
            } else {
                None
            }
            &&& seen.running == if owns && stream.running_command {
                shell.running
            } else {
                None
            }
            &&& seen.revision == shell.revision
            &&& seen.phase == shell.phase
            &&& seen.cwd == shell.cwd
            &&& seen.process == shell.process
            &&& seen.tui_hint == shell.tui_hint
            &&& stream.after_shell(seen.revision).shell >= seen.revision
            &&& stream.after_shell(seen.revision).shell >= stream.shell
        }),
{
}

} // verus!
