//! The logical lines that scrolled off the live screen.
use vstd::prelude::*;
use vstd::utf8::encode_utf8;

use crate::proto::{
    History, TerminalHistorySnapshot, TERMINAL_HISTORY_FORMAT, TERMINAL_HISTORY_FORMAT_VERSION,
};
use crate::text::{ends_with, has_ending, same_text, same_texts, texts};

verus! {

/// What a line costs: its UTF-8 bytes and a terminator.
pub open spec fn line_cost(line: Seq<char>) -> nat {
    encode_utf8(line).len() + 1
}

/// What a list of lines costs.
pub open spec fn lines_cost(lines: Seq<Seq<char>>) -> nat
    decreases lines.len(),
{
    if lines.len() == 0 {
        0
    } else {
        lines_cost(lines.drop_last()) + line_cost(lines.last())
    }
}

/// The lines that remain when the oldest are dropped whole until the rest
/// costs no more than `capacity`.
pub open spec fn newest_lines(lines: Seq<Seq<char>>, capacity: nat) -> Seq<Seq<char>>
    decreases lines.len(),
{
    if lines_cost(lines) <= capacity || lines.len() == 0 {
        lines
    } else {
        newest_lines(lines.skip(1), capacity)
    }
}

/// The content of a [`TerminalHistory`].
#[verifier::ext_equal]
pub struct Lines {
    pub generation: u64,
    pub revision: u64,
    pub capacity: nat,
    pub truncated: bool,
    pub lines: Seq<Seq<char>>,
}

impl Lines {
    pub open spec fn initial(capacity: nat) -> Lines {
        Lines { generation: 0, revision: 0, capacity, truncated: false, lines: Seq::empty() }
    }

    /// The history after its lines were replaced. Truncation stays on record
    /// until the history is cleared; the revision changes only with the
    /// content.
    pub open spec fn replaced(self, lines: Seq<Seq<char>>, source_truncated: bool) -> Lines {
        let kept = newest_lines(lines, self.capacity);
        let truncated = self.truncated || source_truncated || kept.len() < lines.len();
        if kept == self.lines && truncated == self.truncated {
            self
        } else {
            Lines { revision: (self.revision + 1) as u64, truncated, lines: kept, ..self }
        }
    }

    /// The history after its lines were erased.
    pub open spec fn cleared(self) -> Lines {
        Lines {
            generation: (self.generation + 1) as u64,
            revision: (self.revision + 1) as u64,
            truncated: false,
            lines: Seq::empty(),
            ..self
        }
    }

    /// What a client is sent of the history at an output sequence.
    pub open spec fn snapshot(self, sequence: u64) -> History {
        History {
            format: TERMINAL_HISTORY_FORMAT@,
            format_version: TERMINAL_HISTORY_FORMAT_VERSION,
            sequence,
            generation: self.generation,
            revision: self.revision,
            retained_bytes: lines_cost(self.lines) as u64,
            truncated: self.truncated,
            lines: self.lines,
        }
    }
}

/// A bounded list of logical lines.
#[derive(Debug)]
pub struct TerminalHistory {
    generation: u64,
    revision: u64,
    capacity_bytes: usize,
    retained_bytes: usize,
    truncated: bool,
    lines: Vec<String>,
}

impl View for TerminalHistory {
    type V = Lines;

    closed spec fn view(&self) -> Lines {
        Lines {
            generation: self.generation,
            revision: self.revision,
            capacity: self.capacity_bytes as nat,
            truncated: self.truncated,
            lines: texts(self.lines@),
        }
    }
}

proof fn cost_of_first(lines: Seq<Seq<char>>)
    requires
        lines.len() > 0,
    ensures
        lines_cost(lines) == line_cost(lines[0]) + lines_cost(lines.skip(1)),
    decreases lines.len(),
{
    if lines.len() == 1 {
        reveal_with_fuel(lines_cost, 2);
        assert(lines.skip(1) =~= Seq::empty());
        assert(lines.drop_last() =~= Seq::empty());
    } else {
        cost_of_first(lines.drop_last());
        assert(lines.drop_last().skip(1) =~= lines.skip(1).drop_last());
    }
}

/// The cost of the lines from `start` on.
fn cost_from(lines: &Vec<String>, start: usize) -> (cost: u128)
    requires
        start <= lines@.len(),
    ensures
        cost == lines_cost(texts(lines@).skip(start as int)),
{
    let mut cost: u128 = 0;
    let mut index: usize = lines.len();
    let ghost all = texts(lines@);
    assert(all.skip(lines@.len() as int) =~= Seq::empty());
    while index > start
        invariant
            start <= index <= lines@.len(),
            all == texts(lines@),
            cost == lines_cost(all.skip(index as int)),
            cost <= (lines@.len() - index) * 0x1_0000_0000_0000_0001,
        decreases index,
    {
        index -= 1;
        let length: usize = lines[index].as_str().as_bytes().len();
        proof {
            cost_of_first(all.skip(index as int));
            assert(all.skip(index as int).skip(1) =~= all.skip(index + 1));
            assert(all.skip(index as int)[0] == lines@[index as int]@);
            assert(lines@.len() == lines.len());
            assert(cost + length + 1 <= (lines@.len() - index) * 0x1_0000_0000_0000_0001);
            assert((lines@.len() - index) * 0x1_0000_0000_0000_0001
                <= 0xffff_ffff_ffff_ffff * 0x1_0000_0000_0000_0001);
        }
        cost = cost + length as u128 + 1;
    }
    cost
}

impl TerminalHistory {
    pub closed spec fn wf(&self) -> bool {
        &&& self.capacity_bytes >= 1
        &&& self.retained_bytes == lines_cost(texts(self.lines@))
        &&& self.retained_bytes <= self.capacity_bytes
    }

    /// A well-formed history stays within its capacity.
    pub proof fn history_is_bounded(&self)
        requires
            self.wf(),
        ensures
            lines_cost(self@.lines) <= self@.capacity,
            self@.capacity <= usize::MAX,
    {
    }

    /// An empty history of at most `capacity_bytes`, and at least one byte.
    pub fn new(capacity_bytes: usize) -> (history: Self)
        ensures
            history.wf(),
            history@ == Lines::initial(
                if capacity_bytes == 0 {
                    1
                } else {
                    capacity_bytes as nat
                },
            ),
    {
        let history = TerminalHistory {
            generation: 0,
            revision: 0,
            capacity_bytes: if capacity_bytes == 0 {
                1
            } else {
                capacity_bytes
            },
            retained_bytes: 0,
            truncated: false,
            lines: Vec::new(),
        };
        assert(texts(history.lines@) =~= Seq::empty());
        history
    }

    /// Replaces the lines. Keeps whole lines only, and the newest of them.
    pub fn replace(&mut self, lines: Vec<String>, source_truncated: bool)
        requires
            old(self).wf(),
            old(self)@.revision < u64::MAX,
        ensures
            final(self).wf(),
            final(self)@ == old(self)@.replaced(texts(lines@), source_truncated),
    {
        let ghost all = texts(lines@);
        let mut start: usize = 0;
        let mut retained: u128 = cost_from(&lines, 0);
        assert(all.skip(0) =~= all);
        while start < lines.len() && retained > self.capacity_bytes as u128
            invariant
                start <= lines@.len(),
                all == texts(lines@),
                retained == lines_cost(all.skip(start as int)),
                newest_lines(all, self.capacity_bytes as nat) == newest_lines(
                    all.skip(start as int),
                    self.capacity_bytes as nat,
                ),
            decreases lines@.len() - start,
        {
            proof {
                cost_of_first(all.skip(start as int));
                assert(all.skip(start as int).skip(1) =~= all.skip(start + 1));
                assert(all.skip(start as int)[0] == lines@[start as int]@);
            }
            let length: usize = lines[start].as_str().as_bytes().len();
            retained = retained - (length as u128 + 1);
            start += 1;
        }
        let ghost kept = newest_lines(all, self.capacity_bytes as nat);
        let truncated = self.truncated || source_truncated || start > 0;
        let mut rest = lines;
        let newest = rest.split_off(start);
        proof {
            assert(texts(newest@) =~= all.skip(start as int));
            assert(kept == texts(newest@));
            if start == lines@.len() {
                assert(all.skip(start as int) =~= Seq::empty());
            }
        }
        if same_texts(&self.lines, &newest) && self.truncated == truncated {
            return ;
        }
        self.lines = newest;
        self.retained_bytes = retained as usize;
        self.truncated = truncated;
        self.revision = self.revision + 1;
    }

    /// Erases the lines and starts a new generation.
    pub fn clear(&mut self)
        requires
            old(self).wf(),
            old(self)@.revision < u64::MAX,
            old(self)@.generation < u64::MAX,
        ensures
            final(self).wf(),
            final(self)@ == old(self)@.cleared(),
    {
        self.generation = self.generation + 1;
        self.revision = self.revision + 1;
        self.retained_bytes = 0;
        self.truncated = false;
        self.lines = Vec::new();
        assert(texts(self.lines@) =~= Seq::empty());
    }

    /// The generation and the revision.
    pub fn counters(&self) -> (counters: (u64, u64))
        ensures
            counters.0 == self@.generation,
            counters.1 == self@.revision,
    {
        (self.generation, self.revision)
    }

    /// What a client is sent of the history.
    pub fn snapshot(&self, sequence: u64) -> (snapshot: TerminalHistorySnapshot)
        requires
            self.wf(),
        ensures
            snapshot@ == self@.snapshot(sequence),
    {
        TerminalHistorySnapshot {
            format: TERMINAL_HISTORY_FORMAT.to_owned(),
            format_version: TERMINAL_HISTORY_FORMAT_VERSION,
            sequence,
            generation: self.generation,
            revision: self.revision,
            retained_bytes: self.retained_bytes as u64,
            truncated: self.truncated,
            lines: self.lines.clone(),
        }
    }
}

/// A history that dropped lines, or was fed from a source that did, says so
/// until it is cleared; what it keeps is the end of what it was given.
pub proof fn truncation_is_reported(
    history: Lines,
    lines: Seq<Seq<char>>,
    source_truncated: bool,
)
    ensures
        ({
            let next = history.replaced(lines, source_truncated);
            &&& history.truncated ==> next.truncated
            &&& source_truncated ==> next.truncated
            &&& next.lines.len() < lines.len() ==> next.truncated
            &&& next.lines.len() <= lines.len()
            &&& next.lines == lines.skip(lines.len() - next.lines.len())
            &&& lines_cost(next.lines) <= history.capacity
        }),
{
    newest_lines_are_a_suffix(lines, history.capacity);
}

proof fn newest_lines_are_a_suffix(lines: Seq<Seq<char>>, capacity: nat)
    ensures
        newest_lines(lines, capacity).len() <= lines.len(),
        newest_lines(lines, capacity) == lines.skip(
            lines.len() - newest_lines(lines, capacity).len(),
        ),
        lines_cost(newest_lines(lines, capacity)) <= capacity,
    decreases lines.len(),
{
    if lines_cost(lines) <= capacity || lines.len() == 0 {
        assert(lines.skip(0) =~= lines);
    } else {
        newest_lines_are_a_suffix(lines.skip(1), capacity);
        let kept = newest_lines(lines, capacity);
        assert(lines.skip(1).skip(lines.len() - 1 - kept.len()) =~= lines.skip(
            lines.len() - kept.len(),
        ));
    }
}

/// How many lines at the end two lists have in common.
pub open spec fn common_suffix(a: Seq<Seq<char>>, b: Seq<Seq<char>>) -> nat
    decreases a.len(),
{
    if a.len() == 0 || b.len() == 0 || a.last() != b.last() {
        0
    } else {
        common_suffix(a.drop_last(), b.drop_last()) + 1
    }
}

/// The lines of a buffer that lie completely above its live screen.
///
/// The live screen is a suffix of the buffer, except that its first line may
/// be the end of a longer line; that line is not complete above the screen. If
/// the two do not fit together in this way, no line is taken as history.
pub open spec fn lines_above(all: Seq<Seq<char>>, live: Seq<Seq<char>>) -> Seq<Seq<char>> {
    let common = common_suffix(all, live);
    let end = all.len() - common;
    if common < live.len() && end > 0 {
        if has_ending(all[end - 1], live[live.len() - 1 - common]) {
            all.take(end - 1)
        } else {
            Seq::empty()
        }
    } else {
        all.take(end)
    }
}

proof fn common_suffix_bound(a: Seq<Seq<char>>, b: Seq<Seq<char>>)
    ensures
        common_suffix(a, b) <= a.len(),
        common_suffix(a, b) <= b.len(),
    decreases a.len(),
{
    if a.len() > 0 && b.len() > 0 && a.last() == b.last() {
        common_suffix_bound(a.drop_last(), b.drop_last());
    }
}

/// Takes the lines of a buffer that lie completely above its live screen.
pub fn logical_history_lines(all_lines: Vec<String>, live_lines: &Vec<String>) -> (history: Vec<
    String,
>)
    ensures
        texts(history@) == lines_above(texts(all_lines@), texts(live_lines@)),
{
    let ghost all = texts(all_lines@);
    let ghost live = texts(live_lines@);
    let mut matching: usize = 0;
    assert(all.take(all.len() as int) =~= all);
    assert(live.take(live.len() as int) =~= live);
    while matching < all_lines.len() && matching < live_lines.len() && same_text(
        all_lines[all_lines.len() - 1 - matching].as_str(),
        live_lines[live_lines.len() - 1 - matching].as_str(),
    )
        invariant
            matching <= all_lines@.len(),
            matching <= live_lines@.len(),
            all == texts(all_lines@),
            live == texts(live_lines@),
            common_suffix(all, live) == matching + common_suffix(
                all.take(all.len() - matching),
                live.take(live.len() - matching),
            ),
        decreases all_lines@.len() - matching,
    {
        proof {
            let a = all.take(all.len() - matching);
            let b = live.take(live.len() - matching);
            assert(a.drop_last() =~= all.take(all.len() - matching - 1));
            assert(b.drop_last() =~= live.take(live.len() - matching - 1));
            assert(a.last() == all_lines@[all_lines@.len() - 1 - matching]@);
            assert(b.last() == live_lines@[live_lines@.len() - 1 - matching]@);
        }
        matching += 1;
    }
    proof {
        let a = all.take(all.len() - matching);
        let b = live.take(live.len() - matching);
        if matching < all_lines@.len() && matching < live_lines@.len() {
            assert(a.last() == all_lines@[all_lines@.len() - 1 - matching]@);
            assert(b.last() == live_lines@[live_lines@.len() - 1 - matching]@);
        }
        assert(common_suffix(all, live) == matching);
    }
    let mut end: usize = all_lines.len() - matching;
    if matching < live_lines.len() && end > 0 {
        if ends_with(
            all_lines[end - 1].as_str(),
            live_lines[live_lines.len() - 1 - matching].as_str(),
        ) {
            end = end - 1;
        } else {
            end = 0;
        }
    }
    let mut history = all_lines;
    history.truncate(end);
    assert(texts(history@) =~= lines_above(all, live));
    history
}

/// Lines taken as history come from the top of the buffer, in order, and never
/// reach into what the live screen shows.
pub proof fn history_stays_above_the_screen(all: Seq<Seq<char>>, live: Seq<Seq<char>>)
    ensures
        ({
            let history = lines_above(all, live);
            &&& history.len() <= all.len() - common_suffix(all, live)
            &&& history == all.take(history.len() as int)
        }),
{
    common_suffix_bound(all, live);
    let history = lines_above(all, live);
    assert(history =~= all.take(history.len() as int));
}

/// Keeping the newest lines drops no line that fits: with one more line the
/// rest would cost more than the capacity.
pub proof fn as_many_lines_are_kept_as_fit(lines: Seq<Seq<char>>, capacity: nat)
    ensures
        ({
            let kept = newest_lines(lines, capacity).len();
            kept < lines.len() ==> lines_cost(lines.skip(lines.len() - kept - 1)) > capacity
        }),
    decreases lines.len(),
{
    if !(lines_cost(lines) <= capacity || lines.len() == 0) {
        let rest = lines.skip(1);
        as_many_lines_are_kept_as_fit(rest, capacity);
        newest_lines_are_a_suffix(rest, capacity);
        let kept = newest_lines(rest, capacity).len();
        if kept == rest.len() {
            assert(lines.skip(0) =~= lines);
        } else {
            assert(rest.skip(rest.len() - kept - 1) =~= lines.skip(lines.len() - kept - 1));
        }
    }
}

/// A history counts every change of its content and no other, and counts its
/// erasures apart. An erased history is empty and no longer says that lines are
/// missing; one that dropped nothing, from a source that dropped nothing, does
/// not begin to say so.
pub proof fn the_history_counts_its_changes(
    history: Lines,
    lines: Seq<Seq<char>>,
    source_truncated: bool,
    sequence: u64,
)
    requires
        history.revision < u64::MAX,
        history.generation < u64::MAX,
    ensures
        ({
            let next = history.replaced(lines, source_truncated);
            &&& next.generation == history.generation
            &&& next.capacity == history.capacity
            &&& next.revision == if next.lines != history.lines || next.truncated
                != history.truncated {
                history.revision + 1
            } else {
                history.revision as int
            }
            &&& next.truncated ==> history.truncated || source_truncated || next.lines.len()
                < lines.len()
            &&& lines_cost(lines) <= history.capacity ==> next.lines == lines
        }),
        ({
            let erased = history.cleared();
            &&& erased.lines.len() == 0
            &&& !erased.truncated
            &&& erased.generation == history.generation + 1
            &&& erased.revision == history.revision + 1
            &&& erased.capacity == history.capacity
        }),
        ({
            let told = history.snapshot(sequence);
            &&& told.lines == history.lines
            &&& told.truncated == history.truncated
            &&& told.generation == history.generation
            &&& told.revision == history.revision
            &&& told.sequence == sequence
        }),
{
}

proof fn common_suffix_of(above: Seq<Seq<char>>, live: Seq<Seq<char>>, other: Seq<Seq<char>>)
    ensures
        common_suffix(above + live, other + live) == live.len() + common_suffix(above, other),
    decreases live.len(),
{
    if live.len() == 0 {
        assert(above + live =~= above);
        assert(other + live =~= other);
    } else {
        common_suffix_of(above, live.drop_last(), other);
        assert((above + live).drop_last() =~= above + live.drop_last());
        assert((other + live).drop_last() =~= other + live.drop_last());
        assert((above + live).last() == (other + live).last());
    }
}

/// The history of a buffer is what stands above its live screen: all the lines
/// above it, and, where the screen begins within a longer line, all lines above
/// that one.
pub proof fn history_is_what_stands_above(
    above: Seq<Seq<char>>,
    live: Seq<Seq<char>>,
    start: Seq<char>,
)
    requires
        live.len() > 0,
        start.len() > 0,
    ensures
        lines_above(above + live, live) == above,
        lines_above(above.push(start + live[0]) + live.skip(1), live) == above,
{
    let none = Seq::<Seq<char>>::empty();
    common_suffix_of(above, live, none);
    assert(none + live =~= live);
    assert((above + live).take(above.len() as int) =~= above);
    let cut = above.push(start + live[0]);
    let rest = live.skip(1);
    let first = seq![live[0]];
    assert(first + rest =~= live);
    common_suffix_of(cut, rest, first);
    assert(cut.last() == start + live[0]);
    assert(first.last() == live[0]);
    assert((start + live[0]).len() != live[0].len());
    let all = cut + rest;
    assert(common_suffix(all, live) == rest.len());
    assert(all[above.len() as int] == start + live[0]);
    assert((start + live[0]).skip(start.len() as int) =~= live[0]);
    assert(all.take(above.len() as int) =~= above);
}

/// What a history holds is measured as it would be written: every line by its
/// bytes and one byte more.
pub proof fn a_history_is_measured_in_bytes(lines: Seq<Seq<char>>, line: Seq<char>)
    ensures
        lines_cost(Seq::<Seq<char>>::empty()) == 0,
        lines_cost(lines.push(line)) == lines_cost(lines) + encode_utf8(line).len() + 1,
{
    assert(lines.push(line).drop_last() =~= lines);
}

} // verus!
