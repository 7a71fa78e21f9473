//! The state of one terminal: what it shows, what it wrote, and what its shell
//! says about itself.
use vstd::prelude::*;
use vstd::string::*;
use vstd::utf8::{decode_utf8, encode_utf8};

use crate::emulator::{
    count_emulator_lines, dump_emulator, emulator_dump, emulator_line_count, emulator_steps,
    emulator_text, feed_batch, feed_character, feed_parser, history_control, open_emulator,
    open_parser, parser_input, resize_emulator, text_of_emulator, usable_grid, EmulatorStep,
    HistoryControl,
};
use crate::history::{lines_above, lines_cost, logical_history_lines, Lines, TerminalHistory};
use crate::journal::{
    bytes_of, chunks_of, contiguous, Chunk, JournalError, JournalSnapshot, OutputJournal,
};
use crate::paths::{display_working_directory, displayed};
use crate::proto::{
    Checkpoint, CwdSource, ForegroundProcess, History, Process, PromptPhase, Shell,
    ShellProcessState, ShellState, TerminalCheckpoint, TerminalHistorySnapshot, TerminalSize,
    TuiHint, TERMINAL_CHECKPOINT_FORMAT, TERMINAL_CHECKPOINT_FORMAT_VERSION,
};
use crate::report::{Report, ShellReport};
use crate::screen::{AlternateScreenTracker, Screen};
use crate::text::{chars_of, decoded_text, optional};
use crate::utf8::{
    decoded_runs, decoding_is_independent_of_chunking, malformed_length, text_of_runs, valid_up_to,
    Run,
};

verus! {

pub const TERMINAL_SCROLLBACK_MAX_ROWS: usize = 10_000;

pub const TERMINAL_SCROLLBACK_MAX_CELLS: usize = 1_000_000;

/// Leaves headroom in a protocol frame for line-length prefixes, the live
/// checkpoint, and attachment metadata.
pub const TERMINAL_HISTORY_CAPACITY_BYTES: usize = 4_194_304;

/// The scrollback rows kept for a grid: bounded in rows and in cells.
pub open spec fn scrollback_rows(size: TerminalSize) -> nat {
    let columns: nat = if size.columns == 0 {
        1
    } else {
        size.columns as nat
    };
    let rows = 1_000_000nat / columns;
    if rows < 10_000 {
        rows
    } else {
        10_000
    }
}

pub fn terminal_scrollback_rows(terminal_size: &TerminalSize) -> (rows: usize)
    ensures
        rows == scrollback_rows(*terminal_size),
{
    let columns: usize = if terminal_size.columns == 0 {
        1
    } else {
        terminal_size.columns as usize
    };
    let rows: usize = TERMINAL_SCROLLBACK_MAX_CELLS / columns;
    if rows < TERMINAL_SCROLLBACK_MAX_ROWS {
        rows
    } else {
        TERMINAL_SCROLLBACK_MAX_ROWS
    }
}

pub open spec fn usable_size(size: TerminalSize) -> bool {
    usable_grid(size.columns as nat, size.rows as nat)
}

/// Whether an emulator can be made for a grid.
pub fn is_usable_size(size: &TerminalSize) -> (usable: bool)
    ensures
        usable == usable_size(*size),
{
    size.columns >= 2 && size.rows >= 1
}

/// The first step of every emulator of a given size.
pub open spec fn opened(size: TerminalSize) -> EmulatorStep {
    EmulatorStep::Open {
        columns: size.columns as nat,
        rows: size.rows as nat,
        scrollback: scrollback_rows(size),
    }
}

fn terminal_emulator(terminal_size: &TerminalSize) -> (vt: avt::Vt)
    requires
        usable_size(*terminal_size),
    ensures
        emulator_steps(vt) == seq![opened(*terminal_size)],
{
    open_emulator(
        terminal_size.columns as usize,
        terminal_size.rows as usize,
        terminal_scrollback_rows(terminal_size),
    )
}

/// A fresh emulator that shows the same screen as another one, without its
/// saved lines.
pub open spec fn redrawn(steps: Seq<EmulatorStep>, size: TerminalSize) -> Seq<EmulatorStep> {
    seq![opened(size), EmulatorStep::Batch { text: emulator_dump(steps) }]
}

fn redrawn_emulator(vt: &avt::Vt, terminal_size: &TerminalSize) -> (fresh: avt::Vt)
    requires
        usable_size(*terminal_size),
    ensures
        emulator_steps(fresh) == redrawn(emulator_steps(*vt), *terminal_size),
{
    let payload = dump_emulator(vt);
    let mut fresh = terminal_emulator(terminal_size);
    feed_batch(&mut fresh, payload.as_str());
    assert(emulator_steps(fresh) =~= redrawn(emulator_steps(*vt), *terminal_size));
    fresh
}

/// The columns and rows of an emulator: those that it was last opened with or
/// resized to.
pub open spec fn grid_of(steps: Seq<EmulatorStep>) -> Option<(nat, nat)>
    decreases steps.len(),
{
    if steps.len() == 0 {
        None
    } else {
        match steps.last() {
            EmulatorStep::Open { columns, rows, .. } => Some((columns, rows)),
            EmulatorStep::Resize { columns, rows } => Some((columns, rows)),
            _ => grid_of(steps.drop_last()),
        }
    }
}

/// What a terminal displays and remembers.
#[verifier::ext_equal]
pub struct Display {
    /// What was done to the emulator.
    pub steps: Seq<EmulatorStep>,
    /// What the parser of saved-lines controls was fed.
    pub parsed: Seq<char>,
    /// Whether saved lines are still to be dropped.
    pub clear_pending: bool,
    pub history: Lines,
    pub screen: Screen,
    pub size: TerminalSize,
}

impl Display {
    /// Whether the emulator has the grid of the terminal.
    pub open spec fn on_its_grid(self) -> bool {
        grid_of(self.steps) == Some((self.size.columns as nat, self.size.rows as nat))
    }

    pub open spec fn initial(size: TerminalSize, history_capacity: nat) -> Display {
        Display {
            steps: seq![opened(size)],
            parsed: Seq::empty(),
            clear_pending: false,
            history: Lines::initial(history_capacity),
            screen: Screen::initial(),
            size,
        }
    }

    /// Drops the saved lines that are to be dropped, unless an alternate
    /// screen hides the primary one.
    pub open spec fn settled(self) -> Display {
        if self.clear_pending && !self.screen.modes.any() {
            Display { steps: redrawn(self.steps, self.size), clear_pending: false, ..self }
        } else {
            self
        }
    }

    /// The display after one character.
    pub open spec fn after_character(self, character: char) -> Display {
        let screen = self.screen.after(encode_utf8(seq![character]));
        let fed = Display {
            steps: self.steps.push(EmulatorStep::Character { character }),
            parsed: self.parsed.push(character),
            screen,
            ..self
        };
        match history_control(self.parsed, character) {
            None => fed.settled(),
            Some(HistoryControl::EraseSavedLines) => (Display {
                history: self.history.cleared(),
                clear_pending: true,
                ..fed
            }).settled(),
            Some(HistoryControl::FullReset) => Display {
                history: self.history.cleared(),
                clear_pending: false,
                screen: screen.reset(),
                ..fed
            },
        }
    }

    pub open spec fn after_characters(self, characters: Seq<char>) -> Display
        decreases characters.len(),
    {
        if characters.len() == 0 {
            self
        } else {
            self.after_characters(characters.drop_last()).after_character(characters.last())
        }
    }

    /// The display after a run of decoded output.
    pub open spec fn after_run(self, run: Run) -> Display {
        match run {
            Run::Text { text } => {
                let fed = self.after_characters(text);
                Display {
                    steps: fed.steps.push(EmulatorStep::Batch { text: ""@ }),
                    ..fed
                }
            },
            Run::Replacement => self.after_character('\u{fffd}'),
        }
    }

    pub open spec fn after_runs(self, runs: Seq<Run>) -> Display
        decreases runs.len(),
    {
        if runs.len() == 0 {
            self
        } else {
            self.after_run(runs[0]).after_runs(runs.skip(1))
        }
    }

    /// The display on another grid.
    pub open spec fn resized(self, size: TerminalSize) -> Display {
        Display {
            steps: self.steps.push(
                EmulatorStep::Resize { columns: size.columns as nat, rows: size.rows as nat },
            ),
            size,
            ..self
        }
    }

    /// The display with its history brought up to date. While an alternate
    /// screen is in use the history is left as it is.
    pub open spec fn with_history(self) -> Display {
        if self.screen.modes.any() {
            self
        } else {
            Display {
                history: self.history.replaced(
                    lines_above(
                        emulator_text(self.steps),
                        emulator_text(redrawn(self.steps, self.size)),
                    ),
                    emulator_line_count(self.steps) - self.size.rows >= scrollback_rows(self.size),
                ),
                ..self
            }
        }
    }

    /// The screen as the bytes that restore it.
    pub open spec fn checkpoint(self, sequence: u64, pending: Seq<u8>) -> Checkpoint {
        Checkpoint {
            format: TERMINAL_CHECKPOINT_FORMAT@,
            format_version: TERMINAL_CHECKPOINT_FORMAT_VERSION,
            sequence,
            terminal_size: self.size,
            payload: encode_utf8(emulator_dump(self.steps)),
            input_prefix: pending,
        }
    }

    /// Whether the history counters can still grow by `steps`.
    pub open spec fn has_room(self, steps: int) -> bool {
        self.history.generation + steps <= u64::MAX && self.history.revision + steps <= u64::MAX
    }
}

/// The executable form of a [`Display`].
pub struct TerminalDisplay {
    terminal: avt::Vt,
    history_control_parser: avt::parser::Parser,
    history_clear_pending: bool,
    history: TerminalHistory,
    alternate_screen: AlternateScreenTracker,
    terminal_size: TerminalSize,
}

impl View for TerminalDisplay {
    type V = Display;

    closed spec fn view(&self) -> Display {
        Display {
            steps: emulator_steps(self.terminal),
            parsed: parser_input(self.history_control_parser),
            clear_pending: self.history_clear_pending,
            history: self.history@,
            screen: self.alternate_screen@,
            size: self.terminal_size,
        }
    }
}

impl TerminalDisplay {
    pub closed spec fn wf(&self) -> bool {
        &&& usable_size(self.terminal_size)
        &&& self.history.wf()
        &&& self@.on_its_grid()
    }

    /// The emulator of a display always has the grid of the terminal.
    pub proof fn emulator_has_the_grid(&self)
        requires
            self.wf(),
        ensures
            self@.on_its_grid(),
    {
    }

    pub fn new(terminal_size: TerminalSize, history_capacity_bytes: usize) -> (display: Self)
        requires
            usable_size(terminal_size),
        ensures
            display.wf(),
            display@ == Display::initial(
                terminal_size,
                if history_capacity_bytes == 0 {
                    1
                } else {
                    history_capacity_bytes as nat
                },
            ),
    {
        proof {
            opening_sets_the_grid(terminal_size);
        }
        TerminalDisplay {
            terminal: terminal_emulator(&terminal_size),
            history_control_parser: open_parser(),
            history_clear_pending: false,
            history: TerminalHistory::new(history_capacity_bytes),
            alternate_screen: AlternateScreenTracker::default(),
            terminal_size,
        }
    }

    pub fn size(&self) -> (size: TerminalSize)
        ensures
            size == self@.size,
    {
        self.terminal_size
    }

    /// The unwrapped lines of the primary screen and its scrollback.
    pub fn text(&self) -> (lines: Vec<String>)
        ensures
            crate::text::texts(lines@) == emulator_text(self@.steps),
    {
        text_of_emulator(&self.terminal)
    }

    /// What a client would be sent of the history at an output sequence.
    pub fn history_snapshot(&self, sequence: u64) -> (snapshot: TerminalHistorySnapshot)
        requires
            self.wf(),
        ensures
            snapshot@ == self@.history.snapshot(sequence),
    {
        self.history.snapshot(sequence)
    }

    /// Feeds one character.
    fn feed_one(&mut self, character: char)
        requires
            old(self).wf(),
            old(self)@.has_room(1),
        ensures
            final(self).wf(),
            final(self)@ == old(self)@.after_character(character),
    {
        proof {
            other_steps_keep_the_grid(self@.steps, EmulatorStep::Character { character });
        }
        let mut encoded = String::new();
        encoded.push(character);
        assert(encoded@ =~= seq![character]);
        let _news = self.alternate_screen.observe(encoded.as_str().as_bytes());
        let control = feed_parser(&mut self.history_control_parser, character);
        feed_character(&mut self.terminal, character);
        match control {
            None => {
                self.apply_pending_history_clear();
            },
            Some(HistoryControl::EraseSavedLines) => {
                self.history.clear();
                self.history_clear_pending = true;
                self.apply_pending_history_clear();
            },
            Some(HistoryControl::FullReset) => {
                self.history.clear();
                self.history_clear_pending = false;
                let _reset = self.alternate_screen.reset();
            },
        }
    }

    /// Drops saved lines whose erasure is pending.
    ///
    /// The emulator parses the erasure of saved lines but leaves them intact.
    /// Replaying its screen into a fresh emulator preserves the live view and
    /// the parser prefix while dropping only the old scrollback.
    fn apply_pending_history_clear(&mut self)
        requires
            old(self).wf(),
        ensures
            final(self).wf(),
            final(self)@ == old(self)@.settled(),
    {
        proof {
            settling_keeps_the_grid(self@);
        }
        if self.history_clear_pending && !self.alternate_screen.active() {
            self.terminal = redrawn_emulator(&self.terminal, &self.terminal_size);
            self.history_clear_pending = false;
        }
    }

    /// Feeds a text, then lets the emulator trim its scrollback once.
    fn feed_text(&mut self, text: &str)
        requires
            old(self).wf(),
            old(self)@.has_room(text@.len() as int),
        ensures
            final(self).wf(),
            final(self)@ == old(self)@.after_run(Run::Text { text: text@ }),
            final(self)@.history.generation <= old(self)@.history.generation + text@.len(),
            final(self)@.history.revision <= old(self)@.history.revision + text@.len(),
    {
        let ghost start = self@;
        let characters = chars_of(text);
        let mut index: usize = 0;
        assert(characters@.take(0) =~= Seq::empty());
        while index < characters.len()
            invariant
                index <= characters@.len(),
                characters@ == text@,
                self.wf(),
                start.has_room(text@.len() as int),
                self@ == start.after_characters(characters@.take(index as int)),
                self@.history.generation <= start.history.generation + index,
                self@.history.revision <= start.history.revision + index,
            decreases characters@.len() - index,
        {
            proof {
                let taken = characters@.take(index + 1);
                assert(taken.drop_last() =~= characters@.take(index as int));
                assert(taken.last() == characters@[index as int]);
            }
            self.feed_one(characters[index]);
            index += 1;
        }
        assert(characters@.take(index as int) =~= characters@);
        proof {
            other_steps_keep_the_grid(self@.steps, EmulatorStep::Batch { text: ""@ });
        }
        feed_batch(&mut self.terminal, "");
    }

    /// Decodes and feeds the bytes that wait in `pending`, and leaves there
    /// what belongs to a character that is not complete yet.
    pub fn feed_bytes(&mut self, pending: &mut Vec<u8>)
        requires
            old(self).wf(),
            old(self)@.has_room(old(pending)@.len() as int),
        ensures
            final(self).wf(),
            final(self)@ == old(self)@.after_runs(decoded_runs(old(pending)@).0),
            final(pending)@ == decoded_runs(old(pending)@).1,
            final(self)@.history.generation <= old(self)@.history.generation
                + old(pending)@.len(),
            final(self)@.history.revision <= old(self)@.history.revision + old(pending)@.len(),
    {
        let ghost start = self@;
        let ghost all = pending@;
        let ghost target = start.after_runs(decoded_runs(all).0);
        let ghost mut fed: int = 0;
        loop
            invariant_except_break
                start.has_room(all.len() as int),
                self.wf(),
                0 <= fed,
                fed + pending@.len() == all.len(),
                self@.history.generation <= start.history.generation + fed,
                self@.history.revision <= start.history.revision + fed,
                target == self@.after_runs(decoded_runs(pending@).0),
                decoded_runs(all).1 == decoded_runs(pending@).1,
            ensures
                self.wf(),
                self@ == target,
                pending@ == decoded_runs(all).1,
                self@.history.generation <= start.history.generation + all.len(),
                self@.history.revision <= start.history.revision + all.len(),
            decreases pending@.len(),
        {
            let ghost bytes = pending@;
            let valid: usize = valid_up_to(pending.as_slice());
            if valid > 0 || pending.len() == 0 {
                let prefix = vstd::slice::slice_subrange(pending.as_slice(), 0, valid);
                assert(prefix@ =~= bytes.take(valid as int));
                let ghost text_seq = decode_utf8(bytes.take(valid as int));
                proof {
                    decoded_length(bytes.take(valid as int));
                }
                match decoded_text(prefix) {
                    Some(text) => {
                        self.feed_text(text.as_str());
                    },
                    None => {
                        assert(false);
                    },
                }
                let rest = pending.split_off(valid);
                *pending = rest;
                proof {
                    fed = fed + valid;
                    assert(pending@ =~= bytes.skip(valid as int));
                    if valid == bytes.len() {
                        assert(bytes.take(valid as int) =~= bytes);
                        let runs = seq![Run::Text { text: decode_utf8(bytes) }];
                        assert(runs.skip(1) =~= Seq::<Run>::empty());
                        reveal_with_fuel(Display::after_runs, 2);
                    } else {
                        let (runs, later) = decoded_runs(bytes.skip(valid as int));
                        let all_runs = seq![Run::Text { text: text_seq }] + runs;
                        assert(all_runs.skip(1) =~= runs);
                    }
                }
                if pending.len() == 0 {
                    break ;
                }
            } else {
                match malformed_length(pending.as_slice()) {
                    None => {
                        proof {
                            reveal_with_fuel(Display::after_runs, 1);
                        }
                        break ;
                    },
                    Some(length) => {
                        self.feed_one('\u{fffd}');
                        let rest = pending.split_off(length);
                        *pending = rest;
                        proof {
                            fed = fed + length;
                            assert(pending@ =~= bytes.skip(length as int));
                            let (runs, later) = decoded_runs(bytes.skip(length as int));
                            let all_runs = seq![Run::Replacement] + runs;
                            assert(all_runs.skip(1) =~= runs);
                        }
                    },
                }
            }
        }
    }
}

/// Decoding never makes more characters than there are bytes.
proof fn decoded_length(bytes: Seq<u8>)
    requires
        vstd::utf8::valid_utf8(bytes),
    ensures
        decode_utf8(bytes).len() <= bytes.len(),
    decreases bytes.len(),
{
    if bytes.len() > 0 {
        decoded_length(vstd::utf8::pop_first_scalar(bytes));
    }
}

impl Shell {
    /// The state with a working directory. What the shell reports comes before
    /// what the operating system shows.
    pub open spec fn with_cwd(
        self,
        reported: Option<Seq<char>>,
        native: Option<Seq<char>>,
        home: Option<Seq<char>>,
    ) -> Shell {
        let cwd = if reported is Some {
            reported
        } else {
            native
        };
        Shell {
            cwd,
            cwd_display: match cwd {
                Some(directory) => Some(displayed(directory, home)),
                None => None,
            },
            cwd_source: if reported is Some {
                Some(CwdSource::ShellIntegration)
            } else if native is Some {
                Some(CwdSource::Process)
            } else {
                None
            },
            ..self
        }
    }

    /// The state after a report of the shell. Of the two active texts only the
    /// one that belongs to the phase is kept.
    pub open spec fn after_report(
        self,
        report: Report,
        native: Option<Seq<char>>,
        home: Option<Seq<char>>,
    ) -> Shell {
        Shell {
            shell: report.shell,
            phase: report.phase,
            line_redacted: false,
            line: if report.phase == PromptPhase::AtPrompt || report.phase
                == PromptPhase::Editing {
                report.line
            } else {
                None
            },
            running_redacted: false,
            running: if report.phase == PromptPhase::Running {
                report.running
            } else {
                None
            },
            ..self
        }.with_cwd(report.cwd, native, home)
    }

    /// The state when the session has ended: nothing is running or edited.
    pub open spec fn ended(self) -> Shell {
        Shell {
            line: None,
            line_redacted: false,
            running: None,
            running_redacted: false,
            phase: PromptPhase::Unknown,
            process: None,
            ..self
        }
    }

    /// The state as the next revision, observed at an output sequence.
    pub open spec fn revised(self, sequence: nat) -> Shell {
        Shell {
            revision: (self.revision + 1) as u64,
            observed_sequence: sequence as u64,
            ..self
        }
    }
}

/// What the operating system showed of a session's processes.
pub struct ProcessObservation {
    pub pid: u32,
    pub name: Option<String>,
    pub cwd: Option<String>,
    pub foreground: ForegroundProcess,
}

impl ProcessObservation {
    pub open spec fn process(self) -> Process {
        Process { pid: self.pid, name: optional(self.name), foreground: self.foreground@ }
    }

    /// Rechecks an observation after the slow work of making it. A foreground
    /// group that changed meanwhile makes the job's identity void, but not the
    /// shell's directory.
    pub fn confirmed(self, group_before: Option<u32>, group_after: Option<u32>) -> (observation:
        Self)
        ensures
            observation.pid == self.pid,
            observation.name == self.name,
            observation.cwd == self.cwd,
            observation.foreground == if group_before == group_after {
                self.foreground
            } else {
                ForegroundProcess::Unknown
            },
    {
        let same = match (group_before, group_after) {
            (Some(a), Some(b)) => a == b,
            (None, None) => true,
            _ => false,
        };
        if same {
            self
        } else {
            ProcessObservation { foreground: ForegroundProcess::Unknown, ..self }
        }
    }
}

/// Sets the directory of a state from what was reported and what was seen.
fn set_observed_cwd(
    state: &mut ShellState,
    reported: &Option<String>,
    native: &Option<String>,
    home: Option<&str>,
)
    ensures
        final(state)@ == old(state)@.with_cwd(optional(*reported), optional(*native), home_of(home)),
{
    let (cwd, source) = match reported {
        Some(cwd) => (Some(cwd.clone()), Some(CwdSource::ShellIntegration)),
        None => match native {
            Some(cwd) => (Some(cwd.clone()), Some(CwdSource::Process)),
            None => (None, None),
        },
    };
    state.cwd_display = match &cwd {
        Some(cwd) => Some(display_working_directory(cwd.as_str(), home)),
        None => None,
    };
    state.cwd = cwd;
    state.cwd_source = source;
}

pub open spec fn home_of(home: Option<&str>) -> Option<Seq<char>> {
    match home {
        Some(home) => Some(home@),
        None => None,
    }
}

/// A checkpoint captured immediately after a change of the grid.
#[derive(Debug)]
pub struct GeometryCheckpoint {
    pub checkpoint: TerminalCheckpoint,
    pub history: TerminalHistorySnapshot,
    pub geometry_revision: u64,
}

/// A checkpoint with its history and the newest grid change it shows.
#[verifier::ext_equal]
pub struct Boundary {
    pub checkpoint: Checkpoint,
    pub history: History,
    pub geometry: u64,
}

impl View for GeometryCheckpoint {
    type V = Boundary;

    open spec fn view(&self) -> Boundary {
        Boundary {
            checkpoint: self.checkpoint@,
            history: self.history@,
            geometry: self.geometry_revision,
        }
    }
}

impl Clone for GeometryCheckpoint {
    fn clone(&self) -> (copy: Self)
        ensures
            copy@ == self@,
    {
        GeometryCheckpoint {
            checkpoint: self.checkpoint.clone(),
            history: self.history.clone(),
            geometry_revision: self.geometry_revision,
        }
    }
}

pub open spec fn boundary_of(checkpoint: Option<GeometryCheckpoint>) -> Option<Boundary> {
    match checkpoint {
        Some(checkpoint) => Some(checkpoint@),
        None => None,
    }
}

/// The mathematical content of a [`TerminalState`], besides its journal.
#[verifier::ext_equal]
pub struct Terminal {
    pub display: Display,
    /// Output bytes that wait for the rest of their character.
    pub pending: Seq<u8>,
    /// The latest checkpoint, with the history captured at exactly the same
    /// output sequence.
    pub latest: Boundary,
    /// Counts the changes of the grid.
    pub geometry: u64,
    /// The checkpoint made at the latest change of the grid, if there was one.
    pub boundary: Option<Boundary>,
    pub shell: Shell,
    pub native_cwd: Option<Seq<char>>,
    pub reported_cwd: Option<Seq<char>>,
}

impl Terminal {
    /// A terminal that has shown nothing yet.
    pub open spec fn fresh(size: TerminalSize, history_capacity: nat) -> Terminal {
        let display = Display::initial(size, history_capacity).with_history();
        Terminal {
            display,
            pending: Seq::empty(),
            latest: Boundary {
                checkpoint: display.checkpoint(0, Seq::empty()),
                history: display.history.snapshot(0),
                geometry: 0,
            },
            geometry: 0,
            boundary: None,
            shell: ShellState::unknown()@,
            native_cwd: None,
            reported_cwd: None,
        }
    }

    /// The state with a checkpoint made at an output sequence.
    pub open spec fn refreshed(self, sequence: nat) -> Terminal {
        let display = self.display.with_history();
        Terminal {
            display,
            latest: Boundary {
                checkpoint: display.checkpoint(sequence as u64, self.pending),
                history: display.history.snapshot(sequence as u64),
                geometry: self.geometry,
            },
            ..self
        }
    }

    /// The state with a newer hint of the screen in use.
    pub open spec fn with_hint(self, sequence: nat) -> Terminal {
        let hint = self.display.screen.hint;
        if self.shell.tui_hint == hint {
            self
        } else {
            Terminal { shell: (Shell { tui_hint: hint, ..self.shell }).revised(sequence), ..self }
        }
    }

    /// The state after output, before a new checkpoint is considered.
    pub open spec fn fed(self, data: Seq<u8>, sequence: nat) -> Terminal {
        let (runs, rest) = decoded_runs(self.pending + data);
        Terminal { display: self.display.after_runs(runs), pending: rest, ..self }.with_hint(
            sequence,
        )
    }

    /// The state after the grid changed at an output sequence.
    pub open spec fn resized(self, size: TerminalSize, sequence: nat) -> Terminal {
        if self.display.size == size {
            self
        } else {
            let changed = Terminal {
                display: self.display.resized(size),
                geometry: (self.geometry + 1) as u64,
                ..self
            }.refreshed(sequence);
            Terminal { boundary: Some(changed.latest), ..changed }
        }
    }

    /// The state after a report of the shell. A report that would break the
    /// metadata rules is ignored whole.
    pub open spec fn after_report(
        self,
        report: Report,
        home: Option<Seq<char>>,
        sequence: nat,
    ) -> Terminal {
        let candidate = self.shell.after_report(report, self.native_cwd, home);
        if !candidate.metadata_valid() {
            self
        } else if candidate == self.shell {
            Terminal { reported_cwd: report.cwd, ..self }
        } else {
            Terminal {
                reported_cwd: report.cwd,
                shell: candidate.revised(sequence),
                ..self
            }
        }
    }

    /// The state after an observation of the session's processes, or after
    /// one that failed.
    pub open spec fn after_observation(
        self,
        process: Option<Process>,
        cwd: Option<Seq<char>>,
        home: Option<Seq<char>>,
        sequence: nat,
    ) -> Terminal {
        let candidate = Shell { process, ..self.shell }.with_cwd(self.reported_cwd, cwd, home);
        if !candidate.metadata_valid() {
            self
        } else if candidate == self.shell {
            Terminal { native_cwd: cwd, ..self }
        } else {
            Terminal { native_cwd: cwd, shell: candidate.revised(sequence), ..self }
        }
    }

    /// The checkpoint that a client needs that asks for output from
    /// `requested` and has seen grid changes up to `seen`.
    ///
    /// A client without a retained position gets the latest checkpoint. One
    /// that stands at or before a grid change it has not seen gets the
    /// checkpoint made at that change, as long as the output after it is still
    /// retained from `earliest` on, and else the latest one.
    pub open spec fn checkpoint_for(
        self,
        requested: Option<u64>,
        seen: Option<u64>,
        earliest: int,
    ) -> Option<Boundary> {
        if requested is None || requested->0 < earliest {
            Some(self.latest)
        } else if (seen is None || seen->0 < self.geometry) && self.boundary is Some
            && requested->0 <= self.boundary->0.checkpoint.sequence {
            if self.boundary->0.checkpoint.sequence >= earliest {
                self.boundary
            } else {
                Some(self.latest)
            }
        } else {
            None
        }
    }

    /// Whether a client has not seen the latest grid change, which lies at or
    /// after an output sequence. `seen` is the newest grid change that the
    /// client knows.
    pub open spec fn misses_the_grid_at(self, seen: Option<u64>, sequence: u64) -> bool {
        &&& seen is None || seen->0 < self.geometry
        &&& self.boundary matches Some(change) && sequence <= change.checkpoint.sequence
    }

    /// The invariant that ties the checkpoints to the retained output.
    pub open spec fn consistent(self, earliest: int, next: nat) -> bool {
        &&& earliest <= self.latest.checkpoint.sequence <= next
        &&& self.latest.history.sequence == self.latest.checkpoint.sequence
        &&& self.latest.geometry == self.geometry
        &&& self.latest.checkpoint.terminal_size == self.display.size
        &&& self.latest.checkpoint.supported()
        &&& self.boundary is None <==> self.geometry == 0
        &&& self.boundary matches Some(boundary) ==> {
            &&& boundary.checkpoint.sequence <= self.latest.checkpoint.sequence
            &&& boundary.geometry == self.geometry
            &&& boundary.checkpoint.terminal_size == self.display.size
            &&& boundary.history.sequence == boundary.checkpoint.sequence
            &&& boundary.checkpoint.supported()
        }
        &&& self.display.on_its_grid()
        &&& self.shell.tui_hint == self.display.screen.hint
        &&& self.shell.observed_sequence <= next
        &&& self.pending.len() <= 3
    }
}

/// The state of one terminal.
pub struct TerminalState {
    display: TerminalDisplay,
    pending_input: Vec<u8>,
    journal: OutputJournal,
    checkpoint: TerminalCheckpoint,
    checkpoint_history: TerminalHistorySnapshot,
    checkpoint_geometry_revision: u64,
    geometry_revision: u64,
    last_geometry_checkpoint: Option<GeometryCheckpoint>,
    shell_state: ShellState,
    native_cwd: Option<String>,
    reported_cwd: Option<String>,
}

/// What a client is given of a terminal when it attaches or falls behind.
pub struct TerminalDelivery {
    pub checkpoint: Option<TerminalCheckpoint>,
    pub history: Option<TerminalHistorySnapshot>,
    /// The newest grid change that the checkpoint shows.
    pub checkpoint_geometry_revision: Option<u64>,
    pub journal: JournalSnapshot,
    pub history_gap: bool,
}

impl View for TerminalState {
    type V = Terminal;

    closed spec fn view(&self) -> Terminal {
        Terminal {
            display: self.display@,
            pending: self.pending_input@,
            latest: Boundary {
                checkpoint: self.checkpoint@,
                history: self.checkpoint_history@,
                geometry: self.checkpoint_geometry_revision,
            },
            geometry: self.geometry_revision,
            boundary: boundary_of(self.last_geometry_checkpoint),
            shell: self.shell_state@,
            native_cwd: optional(self.native_cwd),
            reported_cwd: optional(self.reported_cwd),
        }
    }
}

impl TerminalState {
    /// The journal of the terminal's output.
    pub closed spec fn journal(&self) -> OutputJournal {
        self.journal
    }

    pub closed spec fn wf(&self) -> bool {
        &&& self.display.wf()
        &&& self.journal.wf()
        &&& self@.consistent(self.journal.earliest(), self.journal.next())
    }

    /// What every well-formed terminal keeps.
    pub proof fn terminal_is_consistent(&self)
        requires
            self.wf(),
        ensures
            self@.consistent(self.journal().earliest(), self.journal().next()),
            self.journal().wf(),
    {
    }

    /// Whether every counter of the terminal can still grow by `steps`.
    pub open spec fn has_room(&self, steps: int) -> bool {
        &&& self@.display.has_room(steps)
        &&& self@.shell.revision + steps <= u64::MAX
        &&& self@.geometry + steps <= u64::MAX
        &&& self.journal().next() + steps <= u64::MAX
    }

    /// A terminal that has shown nothing yet.
    pub fn new(
        terminal_size: TerminalSize,
        journal_capacity_bytes: usize,
        history_capacity_bytes: usize,
    ) -> (state: Self)
        requires
            usable_size(terminal_size),
        ensures
            state.wf(),
            state.journal().next() == 0,
            state.journal().retained() == Seq::<Chunk>::empty(),
            state.journal().capacity() == if journal_capacity_bytes == 0 {
                1
            } else {
                journal_capacity_bytes as nat
            },
            state@ == Terminal::fresh(
                terminal_size,
                if history_capacity_bytes == 0 {
                    1
                } else {
                    history_capacity_bytes as nat
                },
            ),
    {
        let display = TerminalDisplay::new(terminal_size, history_capacity_bytes);
        let checkpoint_history = display.history_snapshot(0);
        let mut state = TerminalState {
            display,
            pending_input: Vec::new(),
            journal: OutputJournal::new(journal_capacity_bytes),
            checkpoint: TerminalCheckpoint {
                format: TERMINAL_CHECKPOINT_FORMAT.to_owned(),
                format_version: TERMINAL_CHECKPOINT_FORMAT_VERSION,
                sequence: 0,
                terminal_size,
                payload: Vec::new(),
                input_prefix: Vec::new(),
            },
            checkpoint_history,
            checkpoint_geometry_revision: 0,
            geometry_revision: 0,
            last_geometry_checkpoint: None,
            shell_state: ShellState::default(),
            native_cwd: None,
            reported_cwd: None,
        };
        state.refresh_checkpoint();
        state
    }

    /// Makes a checkpoint of the current screen and brings the history up to
    /// date.
    fn refresh_checkpoint(&mut self)
        requires
            old(self).display.wf(),
            old(self)@.display.has_room(1),
        ensures
            final(self).display.wf(),
            final(self).journal == old(self).journal,
            final(self)@ == old(self)@.refreshed(old(self).journal().next()),
    {
        self.display.refresh_history();
        let sequence: u64 = self.journal.next_sequence();
        let payload = dump_emulator(&self.display.terminal);
        self.checkpoint = TerminalCheckpoint {
            format: TERMINAL_CHECKPOINT_FORMAT.to_owned(),
            format_version: TERMINAL_CHECKPOINT_FORMAT_VERSION,
            sequence,
            terminal_size: self.display.terminal_size,
            payload: vstd::slice::slice_to_vec(payload.as_str().as_bytes()),
            input_prefix: self.pending_input.clone(),
        };
        self.checkpoint_history = self.display.history_snapshot(sequence);
        self.checkpoint_geometry_revision = self.geometry_revision;
    }

    /// Takes in output of the terminal.
    ///
    /// A new checkpoint is made when the journal no longer reaches back to the
    /// latest one, or when that one is `checkpoint_interval_bytes` old. Returns
    /// whether there was output, and the shell state if it changed.
    pub fn append_output(&mut self, data: &[u8], checkpoint_interval_bytes: u64) -> (outcome: (
        bool,
        Option<ShellState>,
    ))
        requires
            old(self).wf(),
            old(self).has_room(data@.len() as int + 4),
        ensures
            final(self).wf(),
            final(self).journal().capacity() == old(self).journal().capacity(),
            final(self).journal().next() == old(self).journal().next() + data@.len(),
            final(self).journal().retained() == old(self).journal().retained_after(data@),
            final(self).journal().bytes() == crate::journal::suffix(
                old(self).journal().bytes() + data@,
                old(self).journal().capacity() as int,
            ),
            ({
                let next = final(self).journal().next();
                let fed = old(self)@.fed(data@, next);
                let stale = final(self).journal().earliest() > fed.latest.checkpoint.sequence;
                let due = next - fed.latest.checkpoint.sequence >= checkpoint_interval_bytes;
                final(self)@ == if stale || due {
                    fed.refreshed(next)
                } else {
                    fed
                }
            }),
            ({
                let next = final(self).journal().next();
                let made = final(self)@.latest.checkpoint.sequence;
                made == next || next - made < checkpoint_interval_bytes
            }),
            outcome.0 == (data@.len() > 0),
            outcome.1 is Some <==> final(self)@.shell.tui_hint != old(self)@.shell.tui_hint,
            outcome.1 matches Some(state) ==> state@ == final(self)@.shell,
    {
        proof {
            crate::utf8::little_is_kept_for_later(self.pending_input@ + data@);
        }
        self.pending_input.extend_from_slice(data);
        assert(self.pending_input@ =~= old(self).pending_input@ + data@);
        proof {
            output_keeps_the_grid(self.display@, decoded_runs(self.pending_input@).0);
        }
        self.display.feed_bytes(&mut self.pending_input);
        let chunk = self.journal.append(data);
        let hint = self.display.hint();
        let news = if self.shell_state.tui_hint != hint {
            self.shell_state.tui_hint = hint;
            Some(self.revise_shell_state())
        } else {
            None
        };
        proof {
            self.journal.retention_is_bounded();
        }
        let next: u64 = self.journal.next_sequence();
        let stale = self.journal.earliest_sequence() > self.checkpoint.sequence;
        let due = next - self.checkpoint.sequence >= checkpoint_interval_bytes;
        if stale || due {
            self.refresh_checkpoint();
        }
        (chunk.is_some(), news)
    }

    /// Gives the shell state its next revision.
    fn revise_shell_state(&mut self) -> (state: ShellState)
        requires
            old(self)@.shell.revision < u64::MAX,
        ensures
            final(self).journal == old(self).journal,
            final(self).display == old(self).display,
            final(self)@ == (Terminal {
                shell: old(self)@.shell.revised(old(self).journal().next()),
                ..old(self)@
            }),
            state@ == final(self)@.shell,
    {
        self.shell_state.revision = self.shell_state.revision + 1;
        self.shell_state.observed_sequence = self.journal.next_sequence();
        self.shell_state.clone()
    }

    /// Changes the grid. Returns the output sequence and the revision of the
    /// change, or nothing when the grid is that one already.
    pub fn resize(&mut self, terminal_size: TerminalSize) -> (change: Option<(u64, u64)>)
        requires
            old(self).wf(),
            usable_size(terminal_size),
            old(self).has_room(1),
        ensures
            final(self).wf(),
            final(self).journal() == old(self).journal(),
            final(self)@ == old(self)@.resized(terminal_size, old(self).journal().next()),
            change is Some <==> old(self)@.display.size != terminal_size,
            change matches Some((sequence, revision)) ==> sequence == old(self).journal().next()
                && revision == final(self)@.geometry,
    {
        if self.display.terminal_size == terminal_size {
            return None;
        }
        proof {
            self.journal.retention_is_bounded();
        }
        proof {
            resizing_sets_the_grid(self.display@, terminal_size);
        }
        resize_emulator(
            &mut self.display.terminal,
            terminal_size.columns as usize,
            terminal_size.rows as usize,
        );
        self.display.terminal_size = terminal_size;
        self.geometry_revision = self.geometry_revision + 1;
        self.refresh_checkpoint();
        self.last_geometry_checkpoint = Some(
            GeometryCheckpoint {
                checkpoint: self.checkpoint.clone(),
                history: self.checkpoint_history.clone(),
                geometry_revision: self.geometry_revision,
            },
        );
        Some((self.journal.next_sequence(), self.geometry_revision))
    }

    /// Takes in a report of the shell. Returns the shell state if it changed.
    pub fn apply_shell_report(&mut self, report: ShellReport, home: Option<&str>) -> (news: Option<
        ShellState,
    >)
        requires
            old(self).wf(),
            old(self)@.shell.revision < u64::MAX,
        ensures
            final(self).wf(),
            final(self).journal() == old(self).journal(),
            final(self)@ == old(self)@.after_report(
                report@,
                home_of(home),
                old(self).journal().next(),
            ),
            news is Some <==> final(self)@.shell != old(self)@.shell,
            news matches Some(state) ==> state@ == final(self)@.shell,
    {
        let mut candidate = self.shell_state.clone();
        let at_prompt = report.prompt_phase == PromptPhase::AtPrompt || report.prompt_phase
            == PromptPhase::Editing;
        let running = report.prompt_phase == PromptPhase::Running;
        candidate.shell = report.shell;
        set_observed_cwd(&mut candidate, &report.cwd, &self.native_cwd, home);
        candidate.prompt_phase = report.prompt_phase;
        candidate.command_line_redacted = false;
        candidate.current_command_line = if at_prompt {
            report.current_command_line
        } else {
            None
        };
        candidate.running_command_redacted = false;
        candidate.running_command = if running {
            report.running_command
        } else {
            None
        };
        proof {
            self.journal.retention_is_bounded();
            assert(candidate@ == self@.shell.after_report(
                report@,
                self@.native_cwd,
                home_of(home),
            ));
        }
        if !candidate.has_valid_metadata() {
            return None;
        }
        self.reported_cwd = report.cwd;
        if candidate.same(&self.shell_state) {
            return None;
        }
        self.shell_state = candidate;
        Some(self.revise_shell_state())
    }

    /// Takes in an observation of the session's processes, or the fact that
    /// none could be made. Returns the shell state if it changed.
    pub fn apply_process_observation(
        &mut self,
        observation: Option<ProcessObservation>,
        home: Option<&str>,
    ) -> (news: Option<ShellState>)
        requires
            old(self).wf(),
            old(self)@.shell.revision < u64::MAX,
        ensures
            final(self).wf(),
            final(self).journal() == old(self).journal(),
            final(self)@ == old(self)@.after_observation(
                match observation {
                    Some(observation) => Some(observation.process()),
                    None => None,
                },
                match observation {
                    Some(observation) => optional(observation.cwd),
                    None => None,
                },
                home_of(home),
                old(self).journal().next(),
            ),
            news is Some <==> final(self)@.shell != old(self)@.shell,
            news matches Some(state) ==> state@ == final(self)@.shell,
    {
        let mut candidate = self.shell_state.clone();
        let (native_cwd, process) = match observation {
            Some(observation) => (
                observation.cwd,
                Some(
                    ShellProcessState {
                        pid: observation.pid,
                        name: observation.name,
                        foreground: observation.foreground,
                    },
                ),
            ),
            None => (None, None),
        };
        candidate.process = process;
        set_observed_cwd(&mut candidate, &self.reported_cwd, &native_cwd, home);
        proof {
            self.journal.retention_is_bounded();
        }
        if !candidate.has_valid_metadata() {
            return None;
        }
        self.native_cwd = native_cwd;
        if candidate.same(&self.shell_state) {
            return None;
        }
        self.shell_state = candidate;
        Some(self.revise_shell_state())
    }

    /// Forgets what the shell was doing when its session ends. Returns the
    /// shell state if it changed.
    pub fn end_shell(&mut self) -> (news: Option<ShellState>)
        requires
            old(self).wf(),
            old(self)@.shell.revision < u64::MAX,
        ensures
            final(self).wf(),
            final(self).journal() == old(self).journal(),
            ({
                let shell = old(self)@.shell;
                let idle = shell.line is None && shell.running is None && shell.process is None
                    && shell.phase == PromptPhase::Unknown;
                &&& news is None <==> idle
                &&& final(self)@ == if idle {
                    old(self)@
                } else {
                    Terminal {
                        shell: shell.ended().revised(old(self).journal().next()),
                        ..old(self)@
                    }
                }
            }),
            news matches Some(state) ==> state@ == final(self)@.shell,
    {
        proof {
            self.journal.retention_is_bounded();
        }
        if self.shell_state.current_command_line.is_none()
            && self.shell_state.running_command.is_none() && self.shell_state.process.is_none()
            && self.shell_state.prompt_phase == PromptPhase::Unknown {
            return None;
        }
        self.shell_state.current_command_line = None;
        self.shell_state.command_line_redacted = false;
        self.shell_state.running_command = None;
        self.shell_state.running_command_redacted = false;
        self.shell_state.prompt_phase = PromptPhase::Unknown;
        self.shell_state.process = None;
        Some(self.revise_shell_state())
    }

    /// Publishes the state anew for a viewer that may now see command text.
    /// The report is unchanged, but the revision keeps every state stream
    /// strictly monotonic. Returns the state if there is text to see.
    pub fn refresh_for_visibility(&mut self) -> (news: Option<ShellState>)
        requires
            old(self).wf(),
            old(self)@.shell.revision < u64::MAX,
        ensures
            final(self).wf(),
            final(self).journal() == old(self).journal(),
            ({
                let shell = old(self)@.shell;
                let text = shell.line is Some || shell.running is Some;
                &&& news is Some <==> text
                &&& final(self)@ == if text {
                    Terminal { shell: shell.revised(old(self).journal().next()), ..old(self)@ }
                } else {
                    old(self)@
                }
            }),
            news matches Some(state) ==> state@ == final(self)@.shell,
    {
        proof {
            self.journal.retention_is_bounded();
        }
        if self.shell_state.current_command_line.is_none()
            && self.shell_state.running_command.is_none() {
            None
        } else {
            Some(self.revise_shell_state())
        }
    }

    /// Whether every counter of the terminal can still grow by `steps`.
    pub fn can_grow(&self, steps: u64) -> (room: bool)
        requires
            self.wf(),
        ensures
            room == self.has_room(steps as int),
    {
        let limit: u64 = u64::MAX - steps;
        let (generation, revision) = self.display.history.counters();
        generation <= limit && revision <= limit && self.shell_state.revision <= limit
            && self.geometry_revision <= limit && self.journal.next_sequence() <= limit
    }

    /// The shell state, unfiltered.
    pub fn shell_state(&self) -> (state: ShellState)
        ensures
            state@ == self@.shell,
    {
        self.shell_state.clone()
    }

    pub fn size(&self) -> (size: TerminalSize)
        ensures
            size == self@.display.size,
    {
        self.display.terminal_size
    }

    pub fn next_sequence(&self) -> (sequence: u64)
        ensures
            sequence == self.journal().next(),
    {
        self.journal.next_sequence()
    }

    /// The latest checkpoint.
    pub fn checkpoint(&self) -> (checkpoint: TerminalCheckpoint)
        ensures
            checkpoint@ == self@.latest.checkpoint,
    {
        self.checkpoint.clone()
    }

    /// The unwrapped lines of the primary screen and its scrollback.
    pub fn text(&self) -> (lines: Vec<String>)
        ensures
            crate::text::texts(lines@) == emulator_text(self@.display.steps),
    {
        self.display.text()
    }

    /// The latest captured history.
    pub fn history(&self) -> (history: TerminalHistorySnapshot)
        ensures
            history@ == self@.latest.history,
    {
        self.checkpoint_history.clone()
    }

    /// What a client needs to continue from `requested`, or to begin when it
    /// has nothing. `seen` is the newest grid change that the client knows.
    ///
    /// A sequence that the terminal has not produced yet is refused.
    pub fn delivery(&self, requested: Option<u64>, seen: Option<u64>) -> (result: Result<
        TerminalDelivery,
        JournalError,
    >)
        requires
            self.wf(),
        ensures
            result is Err <==> requested is Some && requested->0 > self.journal().next(),
            result matches Err(JournalError::SequenceAhead { requested: sequence, next }) ==>
                Some(sequence) == requested && next == self.journal().next(),
            result matches Ok(delivery) ==> {
                let boundary = self@.checkpoint_for(requested, seen, self.journal().earliest());
                let from = match boundary {
                    Some(boundary) => boundary.checkpoint.sequence,
                    None => requested->0,
                };
                &&& match boundary {
                    Some(boundary) => {
                        &&& delivery.checkpoint is Some
                        &&& delivery.checkpoint->0@ == boundary.checkpoint
                        &&& delivery.history is Some
                        &&& delivery.history->0@ == boundary.history
                        &&& delivery.checkpoint_geometry_revision == Some(boundary.geometry)
                    },
                    None => {
                        &&& delivery.checkpoint is None
                        &&& delivery.history is None
                        &&& delivery.checkpoint_geometry_revision is None
                    },
                }
                &&& delivery.journal.replay_from == from
                &&& delivery.journal.earliest_sequence == self.journal().earliest()
                &&& delivery.journal.next_sequence == self.journal().next()
                &&& !delivery.journal.history_gap
                &&& chunks_of(delivery.journal.chunks@) == crate::journal::replay(
                    self.journal().retained(),
                    from as int,
                )
                &&& contiguous(
                    chunks_of(delivery.journal.chunks@),
                    delivery.journal.next_sequence as int,
                )
                &&& bytes_of(chunks_of(delivery.journal.chunks@)) == self.journal().bytes().skip(
                    from - self.journal().earliest(),
                )
                &&& delivery.history_gap == ((requested is Some && requested->0 < from) || (
                boundary is Some && boundary->0.history.truncated))
                &&& delivery.checkpoint matches Some(checkpoint) ==> {
                    &&& checkpoint@.terminal_size == self@.display.size
                    &&& delivery.checkpoint_geometry_revision == Some(self@.geometry)
                }
                &&& self@.misses_the_grid_at(seen, delivery.journal.replay_from)
                    ==> delivery.checkpoint is Some
            },
    {
        proof {
            self.journal.retention_is_bounded();
        }
        let next: u64 = self.journal.next_sequence();
        let earliest: u64 = self.journal.earliest_sequence();
        if let Some(sequence) = requested {
            if sequence > next {
                return Err(JournalError::SequenceAhead { requested: sequence, next });
            }
        }
        let boundary = self.boundary_for(requested, seen, earliest);
        let replay_from: u64 = match &boundary {
            Some(boundary) => boundary.checkpoint.sequence,
            None => match requested {
                Some(sequence) => sequence,
                None => earliest,
            },
        };
        let journal = match self.journal.snapshot_from(Some(replay_from)) {
            Ok(journal) => journal,
            Err(error) => {
                return Err(error);
            },
        };
        let behind = match requested {
            Some(sequence) => sequence < journal.replay_from,
            None => false,
        };
        let truncated = match &boundary {
            Some(boundary) => boundary.history.truncated,
            None => false,
        };
        let (checkpoint, history, checkpoint_geometry_revision) = match boundary {
            Some(boundary) => (
                Some(boundary.checkpoint),
                Some(boundary.history),
                Some(boundary.geometry_revision),
            ),
            None => (None, None, None),
        };
        Ok(
            TerminalDelivery {
                checkpoint,
                history,
                checkpoint_geometry_revision,
                journal,
                history_gap: behind || truncated,
            },
        )
    }

    /// The checkpoint that a client needs.
    fn boundary_for(&self, requested: Option<u64>, seen: Option<u64>, earliest: u64) -> (boundary:
        Option<GeometryCheckpoint>)
        ensures
            boundary_of(boundary) == self@.checkpoint_for(requested, seen, earliest as int),
    {
        let retained = match requested {
            Some(sequence) => sequence >= earliest,
            None => false,
        };
        if !retained {
            return Some(self.latest());
        }
        let unseen = match seen {
            Some(revision) => revision < self.geometry_revision,
            None => true,
        };
        if !unseen {
            return None;
        }
        match &self.last_geometry_checkpoint {
            Some(boundary) => {
                let before = match requested {
                    Some(sequence) => sequence <= boundary.checkpoint.sequence,
                    None => false,
                };
                if !before {
                    None
                } else if boundary.checkpoint.sequence >= earliest {
                    Some(boundary.clone())
                } else {
                    Some(self.latest())
                }
            },
            None => None,
        }
    }

    fn latest(&self) -> (boundary: GeometryCheckpoint)
        ensures
            boundary@ == self@.latest,
    {
        GeometryCheckpoint {
            checkpoint: self.checkpoint.clone(),
            history: self.checkpoint_history.clone(),
            geometry_revision: self.checkpoint_geometry_revision,
        }
    }
}

impl TerminalDisplay {
    /// The hint of the screen in use.
    fn hint(&self) -> (hint: TuiHint)
        ensures
            hint == self@.screen.hint,
    {
        self.alternate_screen.hint()
    }

    /// Brings the history up to date with the emulator.
    fn refresh_history(&mut self)
        requires
            old(self).wf(),
            old(self)@.has_room(1),
        ensures
            final(self).wf(),
            final(self)@ == old(self)@.with_history(),
            final(self)@.history.generation == old(self)@.history.generation,
            final(self)@.history.revision <= old(self)@.history.revision + 1,
    {
        if self.alternate_screen.active() {
            return ;
        }
        let count: usize = count_emulator_lines(&self.terminal);
        let rows: usize = self.terminal_size.rows as usize;
        let above: usize = if count < rows {
            0
        } else {
            count - rows
        };
        let limit: usize = terminal_scrollback_rows(&self.terminal_size);
        proof {
            scrollback_is_positive(self.terminal_size);
        }
        let source_truncated = above >= limit;
        let all_lines = text_of_emulator(&self.terminal);
        let live = redrawn_emulator(&self.terminal, &self.terminal_size);
        let live_lines = text_of_emulator(&live);
        let lines = logical_history_lines(all_lines, &live_lines);
        self.history.replace(lines, source_truncated);
    }
}

proof fn scrollback_is_positive(size: TerminalSize)
    ensures
        scrollback_rows(size) > 0,
{
    let columns: nat = if size.columns == 0 {
        1
    } else {
        size.columns as nat
    };
    assert(1_000_000nat / columns >= 1) by (nonlinear_arith)
        requires
            1 <= columns <= 65535,
    ;
}

impl Display {
    /// Whether two displays differ at most in what was done to their emulators.
    pub open spec fn reads_like(self, other: Display) -> bool {
        &&& self.parsed == other.parsed
        &&& self.clear_pending == other.clear_pending
        &&& self.history == other.history
        &&& self.screen == other.screen
        &&& self.size == other.size
    }
}

proof fn characters_read_alike(display: Display, other: Display, characters: Seq<char>)
    requires
        display.reads_like(other),
    ensures
        display.after_characters(characters).reads_like(other.after_characters(characters)),
    decreases characters.len(),
{
    if characters.len() > 0 {
        characters_read_alike(display, other, characters.drop_last());
    }
}

proof fn characters_follow_characters(display: Display, first: Seq<char>, second: Seq<char>)
    ensures
        display.after_characters(first + second) == display.after_characters(
            first,
        ).after_characters(second),
    decreases second.len(),
{
    if second.len() == 0 {
        assert(first + second =~= first);
    } else {
        characters_follow_characters(display, first, second.drop_last());
        assert((first + second).drop_last() =~= first + second.drop_last());
        assert((first + second).last() == second.last());
    }
}

/// Runs are read like the characters in them.
proof fn runs_read_like_their_text(display: Display, runs: Seq<Run>)
    ensures
        display.after_runs(runs).reads_like(display.after_characters(text_of_runs(runs))),
    decreases runs.len(),
{
    if runs.len() > 0 {
        let next = display.after_run(runs[0]);
        let rest = text_of_runs(runs.skip(1));
        let first = match runs[0] {
            Run::Text { text } => text,
            Run::Replacement => seq!['\u{fffd}'],
        };
        runs_read_like_their_text(next, runs.skip(1));
        characters_follow_characters(display, first, rest);
        if runs[0] is Replacement {
            assert(first.drop_last() =~= Seq::empty());
            assert(display.after_characters(Seq::empty()) == display);
        }
        characters_read_alike(next, display.after_characters(first), rest);
    }
}

/// However output is cut into chunks, it is read as the same characters: the
/// modes, the erased history and the bytes that wait for the rest of their
/// character come out the same.
pub proof fn output_is_read_alike_in_any_chunks(
    terminal: Terminal,
    earlier: Seq<u8>,
    later: Seq<u8>,
    between: nat,
    end: nat,
)
    ensures
        ({
            let once = terminal.fed(earlier + later, end);
            let twice = terminal.fed(earlier, between).fed(later, end);
            &&& once.display.reads_like(twice.display)
            &&& once.pending == twice.pending
            &&& once.shell.tui_hint == twice.shell.tui_hint
        }),
{
    let display = terminal.display;
    let before = terminal.pending + earlier;
    assert(terminal.pending + (earlier + later) =~= before + later);
    decoding_is_independent_of_chunking(before, later);
    let (first, kept) = decoded_runs(before);
    let (second, _) = decoded_runs(kept + later);
    let (all, _) = decoded_runs(before + later);
    let between_display = display.after_runs(first);
    let read = display.after_characters(text_of_runs(first));
    runs_read_like_their_text(display, first);
    runs_read_like_their_text(between_display, second);
    runs_read_like_their_text(display, all);
    characters_read_alike(between_display, read, text_of_runs(second));
    characters_follow_characters(display, text_of_runs(first), text_of_runs(second));
}

/// A directory that the shell reported is shown until the shell reports
/// another, whatever the operating system shows meanwhile.
pub proof fn a_reported_directory_comes_first(
    terminal: Terminal,
    report: Report,
    reported_at: nat,
    process: Option<Process>,
    native: Option<Seq<char>>,
    observed_at: nat,
    home: Option<Seq<char>>,
)
    requires
        report.cwd is Some,
        terminal.shell.after_report(report, terminal.native_cwd, home).metadata_valid(),
    ensures
        ({
            let told = terminal.after_report(report, home, reported_at);
            let seen = told.after_observation(process, native, home, observed_at);
            &&& told.shell.cwd == report.cwd
            &&& told.shell.cwd_source == Some(CwdSource::ShellIntegration)
            &&& seen.shell.cwd == report.cwd
            &&& seen.shell.cwd_source == Some(CwdSource::ShellIntegration)
        }),
{
}

proof fn opening_sets_the_grid(size: TerminalSize)
    ensures
        grid_of(seq![opened(size)]) == Some((size.columns as nat, size.rows as nat)),
{
    assert(seq![opened(size)].last() == opened(size));
}

/// Only opening and resizing an emulator changes its grid.
proof fn other_steps_keep_the_grid(steps: Seq<EmulatorStep>, step: EmulatorStep)
    requires
        !(step is Open),
        !(step is Resize),
    ensures
        grid_of(steps.push(step)) == grid_of(steps),
{
    assert(steps.push(step).drop_last() =~= steps);
}

proof fn settling_keeps_the_grid(display: Display)
    requires
        display.on_its_grid(),
    ensures
        display.settled().on_its_grid(),
{
    let batch = EmulatorStep::Batch { text: emulator_dump(display.steps) };
    opening_sets_the_grid(display.size);
    other_steps_keep_the_grid(seq![opened(display.size)], batch);
    assert(seq![opened(display.size)].push(batch) =~= redrawn(display.steps, display.size));
}

proof fn character_keeps_the_grid(display: Display, character: char)
    requires
        display.on_its_grid(),
    ensures
        display.after_character(character).on_its_grid(),
        display.after_character(character).size == display.size,
{
    other_steps_keep_the_grid(display.steps, EmulatorStep::Character { character });
    let screen = display.screen.after(encode_utf8(seq![character]));
    let fed = Display {
        steps: display.steps.push(EmulatorStep::Character { character }),
        parsed: display.parsed.push(character),
        screen,
        ..display
    };
    settling_keeps_the_grid(fed);
    settling_keeps_the_grid(
        Display { history: display.history.cleared(), clear_pending: true, ..fed },
    );
}

proof fn characters_keep_the_grid(display: Display, characters: Seq<char>)
    requires
        display.on_its_grid(),
    ensures
        display.after_characters(characters).on_its_grid(),
        display.after_characters(characters).size == display.size,
    decreases characters.len(),
{
    if characters.len() > 0 {
        characters_keep_the_grid(display, characters.drop_last());
        character_keeps_the_grid(
            display.after_characters(characters.drop_last()),
            characters.last(),
        );
    }
}

/// Whatever a terminal writes, its grid and that of its emulator stay as they
/// are and stay the same.
pub proof fn output_keeps_the_grid(display: Display, runs: Seq<Run>)
    requires
        display.on_its_grid(),
    ensures
        display.after_runs(runs).on_its_grid(),
        display.after_runs(runs).size == display.size,
        display.after_runs(runs).with_history().on_its_grid(),
    decreases runs.len(),
{
    if runs.len() > 0 {
        let next = display.after_run(runs[0]);
        match runs[0] {
            Run::Text { text } => {
                characters_keep_the_grid(display, text);
                other_steps_keep_the_grid(
                    display.after_characters(text).steps,
                    EmulatorStep::Batch { text: ""@ },
                );
            },
            Run::Replacement => {
                character_keeps_the_grid(display, '\u{fffd}');
            },
        }
        output_keeps_the_grid(next, runs.skip(1));
    }
}

/// A change of the grid gives the terminal and its emulator the new grid, and
/// changes nothing else of what the terminal shows and remembers.
pub proof fn resizing_sets_the_grid(display: Display, size: TerminalSize)
    ensures
        display.resized(size).size == size,
        grid_of(display.resized(size).steps) == Some((size.columns as nat, size.rows as nat)),
        display.resized(size).steps.drop_last() == display.steps,
        display.resized(size).reads_like(Display { size, ..display }),
{
    let steps = display.resized(size).steps;
    assert(steps.drop_last() =~= display.steps);
}

/// A change of the grid is remembered with the output sequence at which it
/// came, until the next one, and every later checkpoint shows the new grid.
pub proof fn a_grid_change_is_remembered(terminal: Terminal, size: TerminalSize, sequence: u64)
    requires
        terminal.display.size != size,
        terminal.geometry < u64::MAX,
    ensures
        ({
            let changed = terminal.resized(size, sequence as nat);
            &&& changed.geometry == terminal.geometry + 1
            &&& changed.display.size == size
            &&& changed.boundary matches Some(change) && {
                &&& change.checkpoint.sequence == sequence
                &&& change.checkpoint.terminal_size == size
                &&& change.geometry == changed.geometry
                &&& change == changed.latest
            }
        }),
{
}

/// Output, reports and observations move neither the grid nor the place of its
/// latest change.
pub proof fn only_a_resize_moves_the_grid(
    terminal: Terminal,
    data: Seq<u8>,
    report: Report,
    process: Option<Process>,
    cwd: Option<Seq<char>>,
    home: Option<Seq<char>>,
    sequence: nat,
)
    requires
        terminal.display.on_its_grid(),
    ensures
        forall|after: Terminal|
            after == terminal.fed(data, sequence) || after == terminal.refreshed(sequence) || after
                == terminal.after_report(report, home, sequence) || after
                == terminal.after_observation(process, cwd, home, sequence) ==> {
                &&& #[trigger] after.display.size == terminal.display.size
                &&& after.geometry == terminal.geometry
                &&& after.boundary == terminal.boundary
            },
{
    output_keeps_the_grid(terminal.display, decoded_runs(terminal.pending + data).0);
}

/// A client that asks for retained output from at or before the latest grid
/// change, and has not seen that change, is given a checkpoint with the
/// current grid; so is one that has no retained position. A client that is
/// given none goes on from where it asked, and misses no grid change.
pub proof fn a_missed_grid_change_is_restored(
    terminal: Terminal,
    requested: Option<u64>,
    seen: Option<u64>,
    earliest: int,
    next: nat,
)
    requires
        terminal.consistent(earliest, next),
    ensures
        match terminal.checkpoint_for(requested, seen, earliest) {
            Some(given) => {
                &&& given.checkpoint.terminal_size == terminal.display.size
                &&& given.geometry == terminal.geometry
                &&& earliest <= given.checkpoint.sequence <= next
            },
            None => {
                &&& requested matches Some(sequence) && earliest <= sequence
                    && !terminal.misses_the_grid_at(seen, sequence)
            },
        },
        requested matches Some(sequence) && earliest <= sequence && terminal.misses_the_grid_at(
            seen,
            sequence,
        ) ==> terminal.checkpoint_for(requested, seen, earliest) is Some,
        requested matches Some(sequence) && earliest <= sequence && !terminal.misses_the_grid_at(
            seen,
            sequence,
        ) ==> terminal.checkpoint_for(requested, seen, earliest) is None,
{
}

/// The scrollback of a grid is as long as its limits allow: at most ten
/// thousand rows and at most a million cells, and no longer scrollback keeps
/// both.
pub proof fn scrollback_is_as_long_as_allowed(size: TerminalSize)
    requires
        size.columns > 0,
    ensures
        0 < scrollback_rows(size) <= 10_000,
        scrollback_rows(size) * size.columns <= 1_000_000,
        scrollback_rows(size) == 10_000 || (scrollback_rows(size) + 1) * size.columns > 1_000_000,
{
    scrollback_is_positive(size);
    let columns = size.columns as nat;
    let rows = 1_000_000nat / columns;
    assert(rows * columns <= 1_000_000 && (rows + 1) * columns > 1_000_000) by (nonlinear_arith)
        requires
            columns > 0,
            rows == 1_000_000nat / columns,
    ;
    if rows >= 10_000 {
        assert(10_000 * columns <= rows * columns) by (nonlinear_arith)
            requires
                rows >= 10_000,
    ;
    }
}

/// Erasing the saved lines empties the history at once. On the primary screen
/// the emulator's saved lines go with it; while an alternate screen hides the
/// primary one, they go as soon as it is left. A full reset also leaves every
/// alternate screen. No other character erases anything.
pub proof fn erased_lines_are_gone(display: Display, character: char)
    ensures
        ({
            let after = display.after_character(character);
            let fed = display.steps.push(EmulatorStep::Character { character });
            let control = history_control(display.parsed, character);
            &&& after.parsed == display.parsed.push(character)
            &&& control is None ==> after.history == display.history
            &&& control is Some ==> after.history.lines.len() == 0 && !after.history.truncated
            &&& control == Some(HistoryControl::FullReset) ==> !after.screen.modes.any()
                && after.screen.hint == TuiHint::Inline && !after.clear_pending && after.steps
                == fed
            &&& control == Some(HistoryControl::EraseSavedLines) ==> {
                &&& after.clear_pending <==> after.screen.modes.any()
                &&& after.steps == if after.screen.modes.any() {
                    fed
                } else {
                    redrawn(fed, display.size)
                }
            }
            &&& control is None ==> {
                let leaves = display.clear_pending && !after.screen.modes.any();
                &&& after.clear_pending == (display.clear_pending && !leaves)
                &&& after.steps == if leaves {
                    redrawn(fed, display.size)
                } else {
                    fed
                }
            }
        }),
{
}

/// A history is not brought up to date while an alternate screen is in use; it
/// says that lines are missing once the emulator's scrollback is full, and does
/// not begin to say so while nothing had to go.
pub proof fn a_full_scrollback_may_have_lost_lines(display: Display)
    ensures
        display.screen.modes.any() ==> display.with_history() == display,
        !display.screen.modes.any() && emulator_line_count(display.steps) >= display.size.rows
            + scrollback_rows(display.size) ==> display.with_history().history.truncated,
        !display.screen.modes.any() && !display.history.truncated && emulator_line_count(
            display.steps,
        ) < display.size.rows + scrollback_rows(display.size) && lines_cost(
            lines_above(
                emulator_text(display.steps),
                emulator_text(redrawn(display.steps, display.size)),
            ),
        ) <= display.history.capacity ==> !display.with_history().history.truncated,
        display.with_history().steps == display.steps,
        display.with_history().reads_like(
            Display { history: display.with_history().history, ..display },
        ),
{
}

/// A checkpoint is the whole screen at its place in the output: its grid, what
/// restores it, and the bytes that wait for the rest of their character.
pub proof fn a_checkpoint_is_the_whole_screen(terminal: Terminal, sequence: u64)
    ensures
        ({
            let made = terminal.refreshed(sequence as nat);
            &&& made.latest.checkpoint.sequence == sequence
            &&& made.latest.checkpoint.terminal_size == terminal.display.size
            &&& made.latest.checkpoint.payload == encode_utf8(
                emulator_dump(terminal.display.steps),
            )
            &&& made.latest.checkpoint.input_prefix == terminal.pending
            &&& made.latest.history.lines == made.display.history.lines
            &&& made.latest.history.sequence == sequence
            &&& made.latest.geometry == terminal.geometry
            &&& made.pending == terminal.pending
            &&& made.shell == terminal.shell
        }),
{
}

/// What is shown of a shell after its report: its directory, its phase and the
/// one text that belongs to the phase, each as reported. What the operating
/// system showed of its processes, and the hint of the screen, stay.
pub proof fn a_report_is_shown_as_it_is(
    terminal: Terminal,
    report: Report,
    home: Option<Seq<char>>,
    sequence: u64,
)
    requires
        terminal.shell.revision < u64::MAX,
    ensures
        ({
            let after = terminal.after_report(report, home, sequence as nat);
            let shell = after.shell;
            let taken = terminal.shell.after_report(
                report,
                terminal.native_cwd,
                home,
            ).metadata_valid();
            let edits = report.phase == PromptPhase::AtPrompt || report.phase
                == PromptPhase::Editing;
            &&& !taken ==> after == terminal
            &&& taken ==> {
                &&& after.reported_cwd == report.cwd
                &&& shell.shell == report.shell
                &&& shell.phase == report.phase
                &&& shell.line == if edits {
                    report.line
                } else {
                    None
                }
                &&& shell.running == if report.phase == PromptPhase::Running {
                    report.running
                } else {
                    None
                }
                &&& !shell.line_redacted && !shell.running_redacted
                &&& shell.cwd == if report.cwd is Some {
                    report.cwd
                } else {
                    terminal.native_cwd
                }
                &&& shell.cwd_source == Some(CwdSource::ShellIntegration) <==> report.cwd is Some
                &&& shell.cwd_source == Some(CwdSource::Process) <==> report.cwd is None
                    && terminal.native_cwd is Some
                &&& shell.cwd matches Some(directory) ==> shell.cwd_display == Some(
                    displayed(directory, home),
                )
                &&& shell.cwd is None ==> shell.cwd_display is None && shell.cwd_source is None
            }
            &&& shell.process == terminal.shell.process
            &&& shell.tui_hint == terminal.shell.tui_hint
            &&& shell != terminal.shell ==> shell.revision == terminal.shell.revision + 1
                && shell.observed_sequence == sequence
            &&& after.display == terminal.display && after.pending == terminal.pending
            &&& after.latest == terminal.latest && after.native_cwd == terminal.native_cwd
        }),
{
}

/// What is shown of a session's processes is what was observed last, or nothing
/// where no observation could be made; what the shell reported stays.
pub proof fn an_observation_is_shown_as_it_is(
    terminal: Terminal,
    process: Option<Process>,
    cwd: Option<Seq<char>>,
    home: Option<Seq<char>>,
    sequence: u64,
)
    requires
        terminal.shell.revision < u64::MAX,
    ensures
        ({
            let after = terminal.after_observation(process, cwd, home, sequence as nat);
            let shell = after.shell;
            let before = terminal.shell;
            let taken = Shell { process, ..before }.with_cwd(
                terminal.reported_cwd,
                cwd,
                home,
            ).metadata_valid();
            &&& !taken ==> after == terminal
            &&& taken ==> {
                &&& after.native_cwd == cwd
                &&& shell.process == process
                &&& shell.cwd == if terminal.reported_cwd is Some {
                    terminal.reported_cwd
                } else {
                    cwd
                }
            }
            &&& shell.shell == before.shell && shell.phase == before.phase
            &&& shell.line == before.line && shell.running == before.running
            &&& shell.tui_hint == before.tui_hint
            &&& after.reported_cwd == terminal.reported_cwd
            &&& shell != before ==> shell.revision == before.revision + 1
                && shell.observed_sequence == sequence
        }),
{
}

/// Of a session that ended nothing is shown as running or edited; where it was
/// and which shell it had stay on record.
pub proof fn an_ended_shell_does_nothing(shell: Shell)
    ensures
        ({
            let ended = shell.ended();
            &&& ended.line is None && ended.running is None && ended.process is None
            &&& ended.phase == PromptPhase::Unknown
            &&& !ended.line_redacted && !ended.running_redacted
            &&& ended.cwd == shell.cwd && ended.cwd_display == shell.cwd_display
                && ended.cwd_source == shell.cwd_source
            &&& ended.shell == shell.shell && ended.tui_hint == shell.tui_hint
            &&& ended.revision == shell.revision
        }),
{
}

/// The shell state follows the screen: after output its hint is that of the
/// screen in use, as a new revision where it changed, and nothing else of it
/// changes.
pub proof fn output_changes_only_the_hint(terminal: Terminal, data: Seq<u8>, sequence: u64)
    requires
        terminal.shell.revision < u64::MAX,
        terminal.shell.tui_hint == terminal.display.screen.hint,
    ensures
        ({
            let after = terminal.fed(data, sequence as nat);
            let shell = after.shell;
            let changed = after.display.screen.hint != terminal.display.screen.hint;
            &&& shell.tui_hint == after.display.screen.hint
            &&& shell.revision == if changed {
                terminal.shell.revision + 1
            } else {
                terminal.shell.revision as int
            }
            &&& shell.observed_sequence == if changed {
                sequence
            } else {
                terminal.shell.observed_sequence
            }
            &&& shell.line == terminal.shell.line && shell.running == terminal.shell.running
            &&& shell.cwd == terminal.shell.cwd && shell.phase == terminal.shell.phase
            &&& after.latest == terminal.latest
        }),
{
}

/// A text reaches the emulator character by character and ends with an empty
/// batch, which trims the scrollback; a malformed piece is one character.
pub proof fn a_text_is_fed_and_trimmed(display: Display, text: Seq<char>)
    ensures
        ({
            let after = display.after_run(Run::Text { text });
            &&& after.steps.last() == (EmulatorStep::Batch { text: ""@ })
            &&& after.steps.drop_last() == display.after_characters(text).steps
            &&& after.reads_like(display.after_characters(text))
        }),
        display.after_run(Run::Replacement) == display.after_character('\u{fffd}'),
{
    let after = display.after_run(Run::Text { text });
    assert(after.steps.drop_last() =~= display.after_characters(text).steps);
}

} // verus!
