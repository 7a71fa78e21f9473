//! A byte-addressed journal that keeps the most recent terminal output.
//!
//! Every output byte of a session has a sequence number. The journal keeps the
//! newest bytes up to its capacity, in the chunks in which they arrived, and
//! hands them out again from any retained sequence.
use std::collections::VecDeque;
use vstd::prelude::*;
use vstd::string::*;

use crate::proto::ServerMessage;
use crate::text::{decimal, decimal_text};

verus! {

broadcast use vstd::seq::group_seq_axioms;

/// A run of output bytes; `sequence_start` numbers the first of them.
#[derive(Debug, PartialEq, Eq)]
pub struct OutputChunk {
    pub sequence_start: u64,
    pub data: Vec<u8>,
}

impl Clone for OutputChunk {
    fn clone(&self) -> (copy: Self)
        ensures
            copy@ == self@,
    {
        OutputChunk { sequence_start: self.sequence_start, data: self.data.clone() }
    }
}

/// The mathematical content of an [`OutputChunk`].
#[verifier::ext_equal]
pub struct Chunk {
    pub start: int,
    pub data: Seq<u8>,
}

impl Chunk {
    pub open spec fn end(self) -> int {
        self.start + self.data.len()
    }
}

impl View for OutputChunk {
    type V = Chunk;

    open spec fn view(&self) -> Chunk {
        Chunk { start: self.sequence_start as int, data: self.data@ }
    }
}

/// The contents of a list of chunks, in order.
pub open spec fn chunks_of(list: Seq<OutputChunk>) -> Seq<Chunk> {
    list.map_values(|chunk: OutputChunk| chunk@)
}

/// All bytes of a list of chunks, one after the other.
pub open spec fn bytes_of(chunks: Seq<Chunk>) -> Seq<u8>
    decreases chunks.len(),
{
    if chunks.len() == 0 {
        Seq::empty()
    } else {
        bytes_of(chunks.drop_last()) + chunks.last().data
    }
}

/// Whether the chunks are non-empty and follow one another without a gap or
/// an overlap, the last one ending just before sequence `next`.
pub open spec fn contiguous(chunks: Seq<Chunk>, next: int) -> bool
    decreases chunks.len(),
{
    chunks.len() > 0 ==> {
        &&& chunks.last().data.len() > 0
        &&& chunks.last().end() == next
        &&& contiguous(chunks.drop_last(), chunks.last().start)
    }
}

/// The chunks that remain when the first `count` bytes are dropped.
pub open spec fn without_prefix(chunks: Seq<Chunk>, count: int) -> Seq<Chunk>
    decreases chunks.len(),
{
    if count <= 0 || chunks.len() == 0 {
        chunks
    } else if count >= chunks[0].data.len() {
        without_prefix(chunks.skip(1), count - chunks[0].data.len())
    } else {
        seq![
            Chunk { start: chunks[0].start + count, data: chunks[0].data.skip(count) },
        ] + chunks.skip(1)
    }
}

/// The part of the chunks at or after sequence `from`.
pub open spec fn replay(chunks: Seq<Chunk>, from: int) -> Seq<Chunk>
    decreases chunks.len(),
{
    if chunks.len() == 0 {
        Seq::empty()
    } else {
        let rest = replay(chunks.drop_last(), from);
        let last = chunks.last();
        if last.end() <= from {
            rest
        } else if last.start >= from {
            rest.push(last)
        } else {
            rest.push(Chunk { start: from, data: last.data.skip(from - last.start) })
        }
    }
}

/// The last `count` elements of `bytes`, or all of them if there are fewer.
pub open spec fn suffix(bytes: Seq<u8>, count: int) -> Seq<u8> {
    if bytes.len() <= count {
        bytes
    } else {
        bytes.skip(bytes.len() - count)
    }
}

proof fn bytes_of_prepend(first: Chunk, rest: Seq<Chunk>)
    ensures
        bytes_of(seq![first] + rest) == first.data + bytes_of(rest),
    decreases rest.len(),
{
    let all = seq![first] + rest;
    if rest.len() == 0 {
        assert(all.drop_last() =~= Seq::empty());
        assert(bytes_of(all.drop_last()) == Seq::<u8>::empty());
        assert(bytes_of(all) =~= first.data + bytes_of(rest));
    } else {
        assert(all.drop_last() =~= seq![first] + rest.drop_last());
        bytes_of_prepend(first, rest.drop_last());
        assert(bytes_of(all) =~= first.data + bytes_of(rest));
    }
}

proof fn bytes_of_split_first(chunks: Seq<Chunk>)
    requires
        chunks.len() > 0,
    ensures
        bytes_of(chunks) == chunks[0].data + bytes_of(chunks.skip(1)),
{
    bytes_of_prepend(chunks[0], chunks.skip(1));
    assert(seq![chunks[0]] + chunks.skip(1) =~= chunks);
}

/// Replacing the first chunk by a non-empty rest of it, or leaving it out,
/// keeps the chunks contiguous.
proof fn contiguous_split_first(chunks: Seq<Chunk>, next: int)
    requires
        contiguous(chunks, next),
        chunks.len() > 0,
    ensures
        contiguous(chunks.skip(1), next),
        chunks[0].data.len() > 0,
        forall|first: Chunk|
            first.data.len() > 0 && first.end() == chunks[0].end() ==> contiguous(
                #[trigger] (seq![first] + chunks.skip(1)),
                next,
            ),
    decreases chunks.len(),
{
    let head = chunks.drop_last();
    let last = chunks.last();
    if head.len() == 0 {
        assert(chunks.skip(1) =~= Seq::empty());
        assert forall|first: Chunk|
            first.data.len() > 0 && first.end() == chunks[0].end() implies contiguous(
            #[trigger] (seq![first] + chunks.skip(1)),
            next,
        ) by {
            let all = seq![first] + chunks.skip(1);
            assert(all.last() == first);
            assert(all.drop_last() =~= Seq::empty());
            assert(contiguous(all.drop_last(), first.start));
            assert(chunks.last() == chunks[0]);
        }
    } else {
        contiguous_split_first(head, last.start);
        assert(chunks.skip(1).drop_last() =~= head.skip(1));
        assert(chunks.skip(1).last() == last);
        assert forall|first: Chunk|
            first.data.len() > 0 && first.end() == chunks[0].end() implies contiguous(
            #[trigger] (seq![first] + chunks.skip(1)),
            next,
        ) by {
            let all = seq![first] + chunks.skip(1);
            assert(all.last() == last);
            assert(all.drop_last() =~= seq![first] + head.skip(1));
        }
    }
}

/// The first chunk's bytes come first, and the others follow it.
pub proof fn first_chunk_leads(chunks: Seq<Chunk>, next: int)
    requires
        contiguous(chunks, next),
        chunks.len() > 0,
    ensures
        chunks[0].data.len() > 0,
        bytes_of(chunks) == chunks[0].data + bytes_of(chunks.skip(1)),
        contiguous(chunks.skip(1), next),
        chunks.skip(1).len() > 0 ==> chunks.skip(1)[0].start == chunks[0].end(),
{
    bytes_of_split_first(chunks);
    contiguous_split_first(chunks, next);
    if chunks.len() > 1 {
        first_start(chunks, next);
        first_start(chunks.skip(1), next);
    }
}

/// Dropping a prefix of the bytes keeps the chunks contiguous.
proof fn without_prefix_facts(chunks: Seq<Chunk>, count: int, next: int)
    requires
        contiguous(chunks, next),
        0 <= count <= bytes_of(chunks).len(),
    ensures
        contiguous(without_prefix(chunks, count), next),
        bytes_of(without_prefix(chunks, count)) == bytes_of(chunks).skip(count),
    decreases chunks.len(),
{
    if count == 0 {
        assert(bytes_of(chunks).skip(0) =~= bytes_of(chunks));
    } else if chunks.len() > 0 {
        bytes_of_split_first(chunks);
        contiguous_split_first(chunks, next);
        let rest = chunks.skip(1);
        let first = chunks[0];
        if count >= first.data.len() {
            without_prefix_facts(rest, count - first.data.len(), next);
            assert(bytes_of(chunks).skip(count) =~= bytes_of(rest).skip(
                count - first.data.len(),
            ));
        } else {
            let cut = Chunk { start: first.start + count, data: first.data.skip(count) };
            bytes_of_prepend(cut, rest);
            assert(bytes_of(chunks).skip(count) =~= cut.data + bytes_of(rest));
        }
    }
}

/// Where the first of contiguous chunks starts.
pub proof fn first_start(chunks: Seq<Chunk>, next: int)
    requires
        contiguous(chunks, next),
    ensures
        chunks.len() > 0 ==> chunks[0].start + bytes_of(chunks).len() == next,
        chunks.len() > 0 <==> bytes_of(chunks).len() > 0,
    decreases chunks.len(),
{
    if chunks.len() > 0 {
        first_start(chunks.drop_last(), chunks.last().start);
    }
}

/// Replaying from a retained sequence gives back exactly the bytes from there.
proof fn replay_facts(chunks: Seq<Chunk>, from: int, next: int)
    requires
        contiguous(chunks, next),
        next - bytes_of(chunks).len() <= from <= next,
    ensures
        contiguous(replay(chunks, from), next),
        bytes_of(replay(chunks, from)) == bytes_of(chunks).skip(
            from - (next - bytes_of(chunks).len()),
        ),
        replay(chunks, from).len() > 0 ==> replay(chunks, from)[0].start == from,
        replay(chunks, from).len() == 0 <==> from == next,
    decreases chunks.len(),
{
    if chunks.len() > 0 {
        let head = chunks.drop_last();
        let last = chunks.last();
        let skipped = from - (next - bytes_of(chunks).len());
        if from <= last.start {
            replay_facts(head, from, last.start);
            let before = replay(head, from);
            let all = before.push(last);
            assert(all.drop_last() =~= before);
            assert(bytes_of(all) =~= bytes_of(chunks).skip(skipped));
        } else {
            replay_is_empty(head, from, last.start);
            if from < next {
                let cut = Chunk { start: from, data: last.data.skip(from - last.start) };
                let all = Seq::<Chunk>::empty().push(cut);
                assert(all.drop_last() =~= Seq::empty());
                assert(bytes_of(all.drop_last()) == Seq::<u8>::empty());
                assert(contiguous(all.drop_last(), from));
                assert(bytes_of(all) =~= bytes_of(chunks).skip(skipped));
            } else {
                assert(bytes_of(chunks).skip(skipped) =~= Seq::empty());
            }
        }
    } else {
        assert(bytes_of(chunks).skip(0) =~= Seq::empty());
    }
}

proof fn replay_is_empty(chunks: Seq<Chunk>, from: int, next: int)
    requires
        contiguous(chunks, next),
        next <= from,
    ensures
        replay(chunks, from) == Seq::<Chunk>::empty(),
    decreases chunks.len(),
{
    if chunks.len() > 0 {
        replay_is_empty(chunks.drop_last(), from, chunks.last().start);
    }
}

impl OutputChunk {
    /// The sequence just past the last byte.
    pub fn sequence_end(&self) -> (end: u64)
        requires
            self@.end() <= u64::MAX,
        ensures
            end == self@.end(),
    {
        self.sequence_start + self.data.len() as u64
    }

    /// The chunk as a client is sent it.
    pub fn into_server_message(self) -> (message: ServerMessage)
        requires
            self@.end() <= u64::MAX,
        ensures
            message matches ServerMessage::Output { sequence_start, sequence_end, data }
                && sequence_start == self@.start && sequence_end == self@.end() && data@
                == self@.data,
    {
        let sequence_end: u64 = self.sequence_end();
        ServerMessage::Output {
            sequence_start: self.sequence_start,
            sequence_end,
            data: self.data,
        }
    }

    /// The part of the chunk at or after `sequence`, if there is any.
    pub fn slice_from(&self, sequence: u64) -> (part: Option<OutputChunk>)
        requires
            self@.end() <= u64::MAX,
        ensures
            part is None <==> self@.end() <= sequence,
            part matches Some(chunk) ==> chunk@ == if self@.start >= sequence {
                self@
            } else {
                Chunk { start: sequence as int, data: self@.data.skip(sequence - self@.start) }
            },
    {
        if self.sequence_end() <= sequence {
            return None;
        }
        if self.sequence_start >= sequence {
            return Some(self.clone());
        }
        let offset: usize = (sequence - self.sequence_start) as usize;
        let data = vstd::slice::slice_subrange(self.data.as_slice(), offset, self.data.len());
        let chunk = OutputChunk {
            sequence_start: sequence,
            data: vstd::slice::slice_to_vec(data),
        };
        assert(chunk@.data =~= self@.data.skip(offset as int));
        Some(chunk)
    }
}

/// What an attaching client is given of the journal.
#[derive(Debug, PartialEq, Eq)]
pub struct JournalSnapshot {
    pub earliest_sequence: u64,
    pub next_sequence: u64,
    pub replay_from: u64,
    pub history_gap: bool,
    pub chunks: Vec<OutputChunk>,
}

/// Why a snapshot was refused.
#[derive(Debug, Clone, Copy, PartialEq, Eq, Structural)]
pub enum JournalError {
    SequenceAhead { requested: u64, next: u64 },
}

impl JournalError {
    pub open spec fn text(self) -> Seq<char> {
        match self {
            JournalError::SequenceAhead { requested, next } => "requested sequence "@ + decimal(
                requested as nat,
            ) + " is ahead of the next sequence "@ + decimal(next as nat),
        }
    }

    /// The error in words.
    pub fn message(&self) -> (message: String)
        ensures
            message@ == self.text(),
    {
        match self {
            JournalError::SequenceAhead { requested, next } => {
                let mut message = "requested sequence ".to_owned();
                message.append(decimal_text(*requested).as_str());
                message.append(" is ahead of the next sequence ");
                message.append(decimal_text(*next).as_str());
                message
            },
        }
    }
}

/// The retained output of one terminal.
#[derive(Debug)]
pub struct OutputJournal {
    capacity_bytes: usize,
    retained_bytes: u64,
    next_sequence: u64,
    chunks: VecDeque<OutputChunk>,
}

impl OutputJournal {
    /// How many bytes the journal may retain.
    pub closed spec fn capacity(&self) -> nat {
        self.capacity_bytes as nat
    }

    /// The sequence of the next byte to be written.
    pub closed spec fn next(&self) -> nat {
        self.next_sequence as nat
    }

    /// The retained chunks, oldest first.
    pub closed spec fn retained(&self) -> Seq<Chunk> {
        chunks_of(self.chunks@)
    }

    /// The retained bytes, oldest first.
    pub open spec fn bytes(&self) -> Seq<u8> {
        bytes_of(self.retained())
    }

    /// The sequence of the oldest retained byte.
    pub open spec fn earliest(&self) -> int {
        self.next() - self.bytes().len()
    }

    /// The chunks that are retained once more output came: one chunk more,
    /// without the oldest bytes that no longer fit.
    pub open spec fn retained_after(&self, data: Seq<u8>) -> Seq<Chunk> {
        if data.len() == 0 {
            self.retained()
        } else {
            let all = self.retained().push(Chunk { start: self.next() as int, data });
            without_prefix(all, bytes_of(all).len() - self.capacity())
        }
    }

    /// The retained chunks are contiguous up to the next sequence and fit the
    /// capacity.
    pub closed spec fn wf(&self) -> bool {
        &&& self.capacity_bytes >= 1
        &&& contiguous(self.retained(), self.next() as int)
        &&& self.retained_bytes == self.bytes().len()
        &&& self.retained_bytes <= self.capacity_bytes
        &&& self.retained_bytes <= self.next_sequence
    }

    /// A well-formed journal holds no more than its capacity and no more than
    /// was written.
    pub proof fn retention_is_bounded(&self)
        requires
            self.wf(),
        ensures
            self.capacity() >= 1,
            self.bytes().len() <= self.capacity(),
            self.bytes().len() <= self.next(),
            contiguous(self.retained(), self.next() as int),
            self.next() <= u64::MAX,
    {
    }

    /// An empty journal that retains up to `capacity_bytes` bytes, and at
    /// least one.
    pub fn new(capacity_bytes: usize) -> (journal: Self)
        ensures
            journal.wf(),
            journal.capacity() == if capacity_bytes == 0 {
                1
            } else {
                capacity_bytes as nat
            },
            journal.next() == 0,
            journal.retained() == Seq::<Chunk>::empty(),
    {
        let journal = OutputJournal {
            capacity_bytes: if capacity_bytes == 0 {
                1
            } else {
                capacity_bytes
            },
            retained_bytes: 0,
            next_sequence: 0,
            chunks: VecDeque::new(),
        };
        assert(journal.retained() =~= Seq::empty());
        journal
    }

    /// The oldest retained sequence; the next sequence when nothing is
    /// retained.
    pub fn earliest_sequence(&self) -> (sequence: u64)
        requires
            self.wf(),
        ensures
            sequence == self.earliest(),
    {
        proof {
            first_start(self.retained(), self.next() as int);
        }
        if self.chunks.len() == 0 {
            self.next_sequence
        } else {
            assert(self.retained()[0] == self.chunks@[0]@);
            self.chunks[0].sequence_start
        }
    }

    pub fn next_sequence(&self) -> (sequence: u64)
        ensures
            sequence == self.next(),
    {
        self.next_sequence
    }

    /// Appends output and evicts the oldest bytes beyond the capacity.
    ///
    /// Returns the whole new chunk, or nothing when `data` is empty.
    pub fn append(&mut self, data: &[u8]) -> (live: Option<OutputChunk>)
        requires
            old(self).wf(),
            old(self).next() + data@.len() <= u64::MAX,
        ensures
            final(self).wf(),
            final(self).capacity() == old(self).capacity(),
            final(self).next() == old(self).next() + data@.len(),
            live is None <==> data@.len() == 0,
            live matches Some(chunk) ==> chunk@ == (Chunk {
                start: old(self).next() as int,
                data: data@,
            }),
            final(self).retained() == old(self).retained_after(data@),
            final(self).bytes() == suffix(
                old(self).bytes() + data@,
                old(self).capacity() as int,
            ),
    {
        if data.len() == 0 {
            assert(self.bytes() + data@ =~= self.bytes());
            return None;
        }
        let live_chunk = OutputChunk {
            sequence_start: self.next_sequence,
            data: vstd::slice::slice_to_vec(data),
        };
        let ghost before = self.retained();
        let copy = live_chunk.clone();
        let ghost all = before.push(copy@);
        self.next_sequence = live_chunk.sequence_end();
        self.retained_bytes += live_chunk.data.len() as u64;
        self.chunks.push_back(copy);
        proof {
            assert(self.retained() =~= all);
            assert(all.drop_last() =~= before);
        }
        self.enforce_capacity();
        Some(live_chunk)
    }

    /// Drops the oldest bytes until the rest fits the capacity.
    fn enforce_capacity(&mut self)
        requires
            contiguous(old(self).retained(), old(self).next() as int),
            old(self).retained_bytes == old(self).bytes().len(),
            old(self).capacity_bytes >= 1,
            old(self).retained_bytes <= old(self).next_sequence,
        ensures
            final(self).wf(),
            final(self).capacity() == old(self).capacity(),
            final(self).next() == old(self).next(),
            final(self).retained() == without_prefix(
                old(self).retained(),
                old(self).bytes().len() - old(self).capacity(),
            ),
            final(self).bytes() == suffix(old(self).bytes(), old(self).capacity() as int),
    {
        let ghost start = self.retained();
        let ghost target = without_prefix(start, bytes_of(start).len() - self.capacity());
        let ghost old_self = *self;
        proof {
            if bytes_of(start).len() > self.capacity() {
                without_prefix_facts(
                    start,
                    bytes_of(start).len() - self.capacity(),
                    self.next() as int,
                );
            }
        }
        while self.retained_bytes > self.capacity_bytes as u64
            invariant
                self.capacity_bytes >= 1,
                self.capacity_bytes == old_self.capacity_bytes,
                self.next_sequence == old_self.next_sequence,
                self.retained_bytes == bytes_of(self.retained()).len(),
                self.retained_bytes <= self.next_sequence,
                contiguous(self.retained(), self.next() as int),
                target == without_prefix(
                    self.retained(),
                    bytes_of(self.retained()).len() - self.capacity_bytes,
                ),
            decreases self.retained_bytes,
        {
            let ghost current = self.retained();
            proof {
                first_start(current, self.next() as int);
                bytes_of_split_first(current);
                contiguous_split_first(current, self.next() as int);
                assert(current[0] == self.chunks@[0]@);
            }
            let excess: u64 = self.retained_bytes - self.capacity_bytes as u64;
            match self.chunks.pop_front() {
                None => {
                    return ;
                },
                Some(mut front) => {
                    assert(self.retained() =~= current.skip(1));
                    if excess >= front.data.len() as u64 {
                        self.retained_bytes -= front.data.len() as u64;
                    } else {
                        let rest = front.data.split_off(excess as usize);
                        let cut = OutputChunk {
                            sequence_start: front.sequence_start + excess,
                            data: rest,
                        };
                        proof {
                            assert(cut@.data =~= current[0].data.skip(excess as int));
                            bytes_of_prepend(cut@, current.skip(1));
                        }
                        self.chunks.push_front(cut);
                        self.retained_bytes -= excess;
                        assert(self.retained() =~= seq![cut@] + current.skip(1));
                    }
                },
            }
        }
    }

    /// Copies retained output beginning at the requested byte sequence.
    ///
    /// A sequence beyond the output produced so far is refused. Without a
    /// request the replay begins at the oldest retained byte; a request for
    /// bytes already evicted begins there too and reports a history gap.
    pub fn snapshot_from(&self, requested: Option<u64>) -> (result: Result<
        JournalSnapshot,
        JournalError,
    >)
        requires
            self.wf(),
        ensures
            result is Err <==> requested is Some && requested->0 > self.next(),
            result matches Err(JournalError::SequenceAhead { requested: sequence, next }) ==>
                Some(sequence) == requested && next == self.next(),
            result matches Ok(snapshot) ==> {
                let from = match requested {
                    Some(sequence) => sequence as int,
                    None => self.earliest(),
                };
                &&& snapshot.earliest_sequence == self.earliest()
                &&& snapshot.next_sequence == self.next()
                &&& snapshot.history_gap == (from < self.earliest())
                &&& snapshot.replay_from == if from < self.earliest() {
                    self.earliest()
                } else {
                    from
                }
                &&& chunks_of(snapshot.chunks@) == replay(
                    self.retained(),
                    snapshot.replay_from as int,
                )
                &&& contiguous(chunks_of(snapshot.chunks@), snapshot.next_sequence as int)
                &&& bytes_of(chunks_of(snapshot.chunks@)) == self.bytes().skip(
                    snapshot.replay_from - self.earliest(),
                )
                &&& requested is None ==> bytes_of(chunks_of(snapshot.chunks@)) == self.bytes()
            },
    {
        if let Some(sequence) = requested {
            if sequence > self.next_sequence {
                return Err(
                    JournalError::SequenceAhead { requested: sequence, next: self.next_sequence },
                );
            }
        }
        let earliest_sequence: u64 = self.earliest_sequence();
        let requested_sequence: u64 = match requested {
            Some(sequence) => sequence,
            None => earliest_sequence,
        };
        let history_gap = requested_sequence < earliest_sequence;
        let replay_from: u64 = if history_gap {
            earliest_sequence
        } else {
            requested_sequence
        };
        let chunks = self.replay_from(replay_from);
        proof {
            replay_facts(self.retained(), replay_from as int, self.next() as int);
            assert(self.bytes().skip(0) =~= self.bytes());
        }
        Ok(
            JournalSnapshot {
                earliest_sequence,
                next_sequence: self.next_sequence,
                replay_from,
                history_gap,
                chunks,
            },
        )
    }

    /// The retained chunks at or after `from`.
    fn replay_from(&self, from: u64) -> (kept: Vec<OutputChunk>)
        requires
            self.wf(),
        ensures
            chunks_of(kept@) == replay(self.retained(), from as int),
    {
        let mut kept: Vec<OutputChunk> = Vec::new();
        let mut index: usize = 0;
        let ghost all = self.retained();
        assert(chunks_of(kept@) =~= replay(all.take(0), from as int));
        while index < self.chunks.len()
            invariant
                index <= self.chunks@.len(),
                self.wf(),
                all == self.retained(),
                chunks_of(kept@) == replay(all.take(index as int), from as int),
            decreases self.chunks@.len() - index,
        {
            proof {
                ends_within(all, self.next() as int, index as int);
                assert(all[index as int] == self.chunks@[index as int]@);
                assert(all.take(index + 1).drop_last() =~= all.take(index as int));
                assert(all.take(index + 1).last() == all[index as int]);
            }
            let ghost before = kept@;
            match self.chunks[index].slice_from(from) {
                Some(part) => {
                    kept.push(part);
                    assert(chunks_of(kept@) =~= chunks_of(before).push(part@));
                },
                None => {},
            }
            index += 1;
        }
        assert(all.take(index as int) =~= all);
        kept
    }
}

/// No chunk reaches past the end.
pub proof fn ends_within(chunks: Seq<Chunk>, next: int, i: int)
    requires
        contiguous(chunks, next),
        0 <= i < chunks.len(),
    ensures
        chunks[i].end() <= next,
    decreases chunks.len(),
{
    if i < chunks.len() - 1 {
        ends_within(chunks.drop_last(), chunks.last().start, i);
    }
}

/// The bytes retained after a series of writes to an empty journal.
pub open spec fn retained_after(writes: Seq<Seq<u8>>, capacity: int) -> Seq<u8>
    decreases writes.len(),
{
    if writes.len() == 0 {
        Seq::empty()
    } else {
        suffix(retained_after(writes.drop_last(), capacity) + writes.last(), capacity)
    }
}

/// Everything that a series of writes wrote.
pub open spec fn written(writes: Seq<Seq<u8>>) -> Seq<u8>
    decreases writes.len(),
{
    if writes.len() == 0 {
        Seq::empty()
    } else {
        written(writes.drop_last()) + writes.last()
    }
}

/// Only the required prefix is evicted: what is retained once more output came
/// is the longest end of it all that the capacity allows.
pub proof fn only_the_required_prefix_is_evicted(before: Seq<u8>, data: Seq<u8>, capacity: int)
    requires
        capacity >= 0,
    ensures
        ({
            let all = before + data;
            let kept = suffix(all, capacity);
            &&& kept.len() <= capacity
            &&& kept.len() <= all.len()
            &&& kept == all.skip(all.len() - kept.len())
            &&& forall|length: int|
                kept.len() < length <= all.len() ==> #[trigger] all.skip(all.len() - length).len()
                    > capacity
        }),
{
    let all = before + data;
    let kept = suffix(all, capacity);
    assert(kept =~= all.skip(all.len() - kept.len()));
}

/// However the output arrives in pieces, the journal retains the last bytes of
/// all of it, as many as its capacity allows.
pub proof fn journal_keeps_the_latest_output(writes: Seq<Seq<u8>>, capacity: int)
    requires
        capacity >= 0,
    ensures
        retained_after(writes, capacity) == suffix(written(writes), capacity),
    decreases writes.len(),
{
    if writes.len() > 0 {
        let head = writes.drop_last();
        journal_keeps_the_latest_output(head, capacity);
        assert(suffix(suffix(written(head), capacity) + writes.last(), capacity) =~= suffix(
            written(head) + writes.last(),
            capacity,
        ));
    }
}

/// A client that has the first `held` bytes of a stream and replays from there
/// has the whole stream, as long as nothing it lacks was evicted.
pub proof fn replay_completes_the_stream(stream: Seq<u8>, capacity: int, held: int)
    requires
        capacity >= 0,
        stream.len() - suffix(stream, capacity).len() <= held <= stream.len(),
    ensures
        ({
            let kept = suffix(stream, capacity);
            stream.take(held) + kept.skip(held - (stream.len() - kept.len())) == stream
        }),
{
    let kept = suffix(stream, capacity);
    assert(stream.take(held) + kept.skip(held - (stream.len() - kept.len())) =~= stream);
}

} // verus!
