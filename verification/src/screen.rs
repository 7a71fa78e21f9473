//! Which screen buffer the application in a terminal uses.
use vstd::prelude::*;

use crate::proto::TuiHint;
use crate::text::{number_in, read_number, split_at_byte};

verus! {

/// The private modes that switch to an alternate screen.
#[derive(Debug, Clone, Copy, PartialEq, Eq, Structural)]
pub struct ScreenModes {
    pub mode_47: bool,
    pub mode_1047: bool,
    pub mode_1049: bool,
}

impl ScreenModes {
    pub open spec fn none() -> ScreenModes {
        ScreenModes { mode_47: false, mode_1047: false, mode_1049: false }
    }

    pub open spec fn any(self) -> bool {
        self.mode_47 || self.mode_1047 || self.mode_1049
    }

    /// The modes after those of `other` were set or reset.
    pub open spec fn changed(self, enable: bool, other: ScreenModes) -> ScreenModes {
        if enable {
            ScreenModes {
                mode_47: self.mode_47 || other.mode_47,
                mode_1047: self.mode_1047 || other.mode_1047,
                mode_1049: self.mode_1049 || other.mode_1049,
            }
        } else {
            ScreenModes {
                mode_47: self.mode_47 && !other.mode_47,
                mode_1047: self.mode_1047 && !other.mode_1047,
                mode_1049: self.mode_1049 && !other.mode_1049,
            }
        }
    }
}

/// Whether a list of parameters separated by semicolons holds a number.
pub open spec fn lists_number(parameters: Seq<u8>, number: nat) -> bool {
    exists|i: int|
        0 <= i < split_at_byte(parameters, 0x3b).len() && number_in(
            #[trigger] split_at_byte(parameters, 0x3b)[i],
            u16::MAX as nat,
        ) == Some(number)
}

pub open spec fn modes_listed(parameters: Seq<u8>) -> ScreenModes {
    ScreenModes {
        mode_47: lists_number(parameters, 47),
        mode_1047: lists_number(parameters, 1047),
        mode_1049: lists_number(parameters, 1049),
    }
}

/// What a control sequence does to the alternate-screen modes: only a private
/// mode set (`h`) or reset (`l`) that lists one of them does anything.
pub open spec fn transition_of(sequence: Seq<u8>) -> Option<(bool, ScreenModes)> {
    if sequence.len() < 2 || !(sequence.last() == 0x68 || sequence.last() == 0x6c) || sequence[0]
        != 0x3f {
        None
    } else {
        let modes = modes_listed(sequence.subrange(1, sequence.len() - 1));
        if modes.any() {
            Some((sequence.last() == 0x68, modes))
        } else {
            None
        }
    }
}

/// Where in a control sequence the observed bytes stand.
pub enum Position {
    Ground,
    Escape,
    Csi { bytes: Seq<u8> },
}

impl Position {
    /// The position after one more byte. An escape byte always restarts, a
    /// final byte always ends, and a sequence of more than 64 bytes is given
    /// up.
    pub open spec fn after(self, byte: u8) -> Position {
        if byte == 0x1b {
            Position::Escape
        } else {
            match self {
                Position::Ground => Position::Ground,
                Position::Escape => if byte == 0x5b {
                    Position::Csi { bytes: Seq::empty() }
                } else {
                    Position::Ground
                },
                Position::Csi { bytes } => if 0x40 <= byte <= 0x7e || bytes.len() >= 64 {
                    Position::Ground
                } else {
                    Position::Csi { bytes: bytes.push(byte) }
                },
            }
        }
    }

    /// The mode change that one more byte completes.
    pub open spec fn completed_by(self, byte: u8) -> Option<(bool, ScreenModes)> {
        match self {
            Position::Csi { bytes } => if 0x40 <= byte <= 0x7e {
                transition_of(bytes.push(byte))
            } else {
                None
            },
            _ => None,
        }
    }
}

/// A bounded observer for CSI private-mode set/reset sequences.
///
/// It never claims to interpret arbitrary terminal control data. Unrecognized
/// and malformed sequences simply have no effect on the alternate-screen
/// hint, and a new escape byte restarts an incomplete candidate.
#[derive(Debug)]
pub enum CsiObserver {
    Ground,
    Escape,
    Csi { bytes: Vec<u8> },
}

impl View for CsiObserver {
    type V = Position;

    open spec fn view(&self) -> Position {
        match self {
            CsiObserver::Ground => Position::Ground,
            CsiObserver::Escape => Position::Escape,
            CsiObserver::Csi { bytes } => Position::Csi { bytes: bytes@ },
        }
    }
}

impl CsiObserver {
    /// Observes one byte and returns the mode change that it completes.
    pub fn feed(&mut self, byte: u8) -> (transition: Option<(bool, ScreenModes)>)
        ensures
            final(self)@ == old(self)@.after(byte),
            transition == old(self)@.completed_by(byte),
    {
        let mut state = CsiObserver::Ground;
        std::mem::swap(&mut state, self);
        match state {
            CsiObserver::Ground => {
                if byte == 0x1b {
                    *self = CsiObserver::Escape;
                }
                None
            },
            CsiObserver::Escape => {
                if byte == 0x1b {
                    *self = CsiObserver::Escape;
                } else if byte == 0x5b {
                    *self = CsiObserver::Csi { bytes: Vec::new() };
                }
                None
            },
            CsiObserver::Csi { bytes: mut sequence } => {
                if byte == 0x1b {
                    *self = CsiObserver::Escape;
                    return None;
                }
                sequence.push(byte);
                if 0x40 <= byte && byte <= 0x7e {
                    return alternate_screen_transition(sequence.as_slice());
                }
                // Normal private-mode sequences are far shorter than this. A
                // hard ceiling keeps an arbitrary application stream from
                // turning the observer into an unbounded side buffer.
                if sequence.len() <= 64 {
                    *self = CsiObserver::Csi { bytes: sequence };
                }
                None
            },
        }
    }
}

fn alternate_screen_transition(sequence: &[u8]) -> (transition: Option<(bool, ScreenModes)>)
    requires
        sequence@.len() > 0,
    ensures
        transition == transition_of(sequence@),
{
    let last: u8 = sequence[sequence.len() - 1];
    if sequence.len() < 2 || (last != 0x68 && last != 0x6c) || sequence[0] != 0x3f {
        return None;
    }
    let parameters = vstd::slice::slice_subrange(sequence, 1, sequence.len() - 1);
    let modes = listed_modes(parameters);
    if modes.mode_47 || modes.mode_1047 || modes.mode_1049 {
        Some((last == 0x68, modes))
    } else {
        None
    }
}

/// Whether one of the parts of a split is a given number.
spec fn among(parts: Seq<Seq<u8>>, number: nat) -> bool {
    exists|i: int|
        0 <= i < parts.len() && number_in(#[trigger] parts[i], u16::MAX as nat) == Some(number)
}

fn listed_modes(parameters: &[u8]) -> (modes: ScreenModes)
    ensures
        modes == modes_listed(parameters@),
{
    let mut modes = ScreenModes { mode_47: false, mode_1047: false, mode_1049: false };
    let mut start: usize = 0;
    let mut index: usize = 0;
    let ghost mut done: Seq<Seq<u8>> = Seq::empty();
    proof {
        assert(parameters@.take(0) =~= Seq::empty());
        assert(done.push(parameters@.subrange(0, 0)) =~= seq![Seq::<u8>::empty()]);
    }
    while index < parameters.len()
        invariant
            start <= index <= parameters@.len(),
            split_at_byte(parameters@.take(index as int), 0x3b) == done.push(
                parameters@.subrange(start as int, index as int),
            ),
            modes.mode_47 == among(done, 47),
            modes.mode_1047 == among(done, 1047),
            modes.mode_1049 == among(done, 1049),
        decreases parameters@.len() - index,
    {
        let ghost parts = split_at_byte(parameters@.take(index as int), 0x3b);
        let ghost part = parameters@.subrange(start as int, index as int);
        proof {
            let taken = parameters@.take(index + 1);
            assert(taken.drop_last() =~= parameters@.take(index as int));
            assert(taken.last() == parameters@[index as int]);
            assert(parts.drop_last() =~= done);
        }
        if parameters[index] == 0x3b {
            modes = with_number(modes, parameters, start, index, Ghost(done));
            proof {
                assert(parameters@.subrange(index + 1, index + 1) =~= Seq::empty());
                done = parts;
            }
            start = index + 1;
        } else {
            proof {
                let longer = parameters@.subrange(start as int, index + 1);
                assert(longer =~= part.push(parameters@[index as int]));
                assert(parts.update(parts.len() - 1, longer) =~= done.push(longer));
            }
        }
        index += 1;
    }
    assert(parameters@.take(index as int) =~= parameters@);
    with_number(modes, parameters, start, parameters.len(), Ghost(done))
}

/// Adds the mode that the parameter between two positions names.
fn with_number(
    modes: ScreenModes,
    parameters: &[u8],
    from: usize,
    to: usize,
    Ghost(done): Ghost<Seq<Seq<u8>>>,
) -> (more: ScreenModes)
    requires
        from <= to <= parameters@.len(),
        modes.mode_47 == among(done, 47),
        modes.mode_1047 == among(done, 1047),
        modes.mode_1049 == among(done, 1049),
    ensures
        ({
            let parts = done.push(parameters@.subrange(from as int, to as int));
            &&& more.mode_47 == among(parts, 47)
            &&& more.mode_1047 == among(parts, 1047)
            &&& more.mode_1049 == among(parts, 1049)
        }),
{
    let mut more = modes;
    let number = read_number(parameters, from, to, u16::MAX as u64);
    match number {
        Some(value) => {
            if value == 47 {
                more.mode_47 = true;
            } else if value == 1047 {
                more.mode_1047 = true;
            } else if value == 1049 {
                more.mode_1049 = true;
            }
        },
        None => {},
    }
    proof {
        let part = parameters@.subrange(from as int, to as int);
        among_push(done, part, 47);
        among_push(done, part, 1047);
        among_push(done, part, 1049);
    }
    more
}

proof fn among_push(parts: Seq<Seq<u8>>, part: Seq<u8>, number: nat)
    ensures
        among(parts.push(part), number) == (among(parts, number) || number_in(part, u16::MAX as nat) == Some(number)),
{
    let more = parts.push(part);
    if among(parts, number) {
        let i = choose|i: int|
            0 <= i < parts.len() && number_in(#[trigger] parts[i], u16::MAX as nat) == Some(number);
        assert(more[i] == parts[i]);
    }
    if number_in(part, u16::MAX as nat) == Some(number) {
        assert(more[parts.len() as int] == part);
    }
    if among(more, number) {
        let i = choose|i: int|
            0 <= i < more.len() && number_in(#[trigger] more[i], u16::MAX as nat) == Some(number);
        if i < parts.len() {
            assert(parts[i] == more[i]);
        }
    }
}

/// What is known of the screen buffer in use.
pub struct Screen {
    pub position: Position,
    pub modes: ScreenModes,
    pub hint: TuiHint,
}

impl Screen {
    pub open spec fn initial() -> Screen {
        Screen {
            position: Position::Ground,
            modes: ScreenModes::none(),
            hint: TuiHint::Unknown,
        }
    }

    /// The screen after one byte. The first byte settles an unknown screen as
    /// the inline one.
    pub open spec fn after_byte(self, byte: u8) -> Screen {
        let position = self.position.after(byte);
        match self.position.completed_by(byte) {
            Some((enable, modes)) => {
                let changed = self.modes.changed(enable, modes);
                Screen {
                    position,
                    modes: changed,
                    hint: if changed.any() {
                        TuiHint::AlternateScreen
                    } else {
                        TuiHint::Inline
                    },
                }
            },
            None => Screen {
                position,
                hint: if self.hint == TuiHint::Unknown {
                    TuiHint::Inline
                } else {
                    self.hint
                },
                ..self
            },
        }
    }

    pub open spec fn after(self, bytes: Seq<u8>) -> Screen
        decreases bytes.len(),
    {
        if bytes.len() == 0 {
            self
        } else {
            self.after(bytes.drop_last()).after_byte(bytes.last())
        }
    }

    /// The screen after a full reset of the terminal.
    pub open spec fn reset(self) -> Screen {
        Screen { hint: TuiHint::Inline, ..Screen::initial() }
    }

    /// The hint to publish when the screen became `next`.
    pub open spec fn news(self, next: Screen) -> Option<TuiHint> {
        if self.hint == next.hint {
            None
        } else {
            Some(next.hint)
        }
    }
}

/// Observes only DEC alternate-screen control sequences. This is deliberately
/// narrower than a terminal parser: it only serves a conservative presentation
/// hint for client overlays.
#[derive(Debug)]
pub struct AlternateScreenTracker {
    parser: CsiObserver,
    active_modes: ScreenModes,
    tui_hint: TuiHint,
}

impl View for AlternateScreenTracker {
    type V = Screen;

    closed spec fn view(&self) -> Screen {
        Screen { position: self.parser@, modes: self.active_modes, hint: self.tui_hint }
    }
}

impl Default for AlternateScreenTracker {
    fn default() -> (tracker: Self)
        ensures
            tracker@ == Screen::initial(),
    {
        AlternateScreenTracker {
            parser: CsiObserver::Ground,
            active_modes: ScreenModes { mode_47: false, mode_1047: false, mode_1049: false },
            tui_hint: TuiHint::Unknown,
        }
    }
}

impl AlternateScreenTracker {
    /// Whether an alternate screen is in use.
    pub fn active(&self) -> (active: bool)
        ensures
            active == self@.modes.any(),
    {
        self.active_modes.mode_47 || self.active_modes.mode_1047 || self.active_modes.mode_1049
    }

    /// The hint as it stands.
    pub fn hint(&self) -> (hint: TuiHint)
        ensures
            hint == self@.hint,
    {
        self.tui_hint
    }

    /// Forgets everything, as a full terminal reset does. Returns the hint if
    /// it changed.
    pub fn reset(&mut self) -> (news: Option<TuiHint>)
        ensures
            final(self)@ == old(self)@.reset(),
            news == old(self)@.news(final(self)@),
    {
        let changed = self.tui_hint != TuiHint::Inline;
        self.parser = CsiObserver::Ground;
        self.active_modes = ScreenModes { mode_47: false, mode_1047: false, mode_1049: false };
        self.tui_hint = TuiHint::Inline;
        if changed {
            Some(TuiHint::Inline)
        } else {
            None
        }
    }

    /// Observes output bytes. Returns the hint if it changed.
    pub fn observe(&mut self, data: &[u8]) -> (news: Option<TuiHint>)
        ensures
            final(self)@ == old(self)@.after(data@),
            news == old(self)@.news(final(self)@),
    {
        let before = self.tui_hint;
        let ghost start = self@;
        let mut index: usize = 0;
        assert(data@.take(0) =~= Seq::empty());
        while index < data.len()
            invariant
                index <= data@.len(),
                self@ == start.after(data@.take(index as int)),
            decreases data@.len() - index,
        {
            proof {
                let taken = data@.take(index + 1);
                assert(taken.drop_last() =~= data@.take(index as int));
                assert(taken.last() == data@[index as int]);
            }
            match self.parser.feed(data[index]) {
                Some((enable, modes)) => {
                    if enable {
                        self.active_modes = ScreenModes {
                            mode_47: self.active_modes.mode_47 || modes.mode_47,
                            mode_1047: self.active_modes.mode_1047 || modes.mode_1047,
                            mode_1049: self.active_modes.mode_1049 || modes.mode_1049,
                        };
                    } else {
                        self.active_modes = ScreenModes {
                            mode_47: self.active_modes.mode_47 && !modes.mode_47,
                            mode_1047: self.active_modes.mode_1047 && !modes.mode_1047,
                            mode_1049: self.active_modes.mode_1049 && !modes.mode_1049,
                        };
                    }
                    self.tui_hint = if self.active() {
                        TuiHint::AlternateScreen
                    } else {
                        TuiHint::Inline
                    };
                },
                None => {
                    if self.tui_hint == TuiHint::Unknown {
                        self.tui_hint = TuiHint::Inline;
                    }
                },
            }
            index += 1;
        }
        assert(data@.take(index as int) =~= data@);
        if self.tui_hint == before {
            None
        } else {
            Some(self.tui_hint)
        }
    }
}

/// The hint tells exactly whether an alternate-screen mode is set, once
/// anything was observed.
pub open spec fn hint_is_truthful(screen: Screen) -> bool {
    match screen.hint {
        TuiHint::Unknown => !screen.modes.any(),
        TuiHint::Inline => !screen.modes.any(),
        TuiHint::AlternateScreen => screen.modes.any(),
    }
}

/// Whatever bytes an application writes, the hint stays truthful, and after
/// the first byte it is known.
pub proof fn the_hint_follows_the_modes(screen: Screen, bytes: Seq<u8>)
    requires
        hint_is_truthful(screen),
    ensures
        hint_is_truthful(screen.after(bytes)),
        bytes.len() > 0 ==> screen.after(bytes).hint != TuiHint::Unknown,
    decreases bytes.len(),
{
    if bytes.len() > 0 {
        the_hint_follows_the_modes(screen, bytes.drop_last());
    }
}

/// How the output is cut into pieces makes no difference to what is observed.
pub proof fn observation_is_independent_of_chunking(screen: Screen, a: Seq<u8>, b: Seq<u8>)
    ensures
        screen.after(a + b) == screen.after(a).after(b),
    decreases b.len(),
{
    if b.len() == 0 {
        assert(a + b =~= a);
    } else {
        assert((a + b).drop_last() =~= a + b.drop_last());
        observation_is_independent_of_chunking(screen, a, b.drop_last());
    }
}

/// Whether bytes can stand between the beginning of a control sequence and its
/// final byte.
pub open spec fn parameters_only(parameters: Seq<u8>) -> bool {
    forall|i: int|
        0 <= i < parameters.len() ==> !(0x40 <= #[trigger] parameters[i] <= 0x7e) && parameters[i]
            != 0x1b
}

proof fn parameters_are_collected(screen: Screen, bytes: Seq<u8>, parameters: Seq<u8>)
    requires
        screen.position == (Position::Csi { bytes }),
        parameters_only(parameters),
        bytes.len() + parameters.len() <= 64,
    ensures
        screen.after(parameters).position == (Position::Csi { bytes: bytes + parameters }),
        screen.after(parameters).modes == screen.modes,
    decreases parameters.len(),
{
    if parameters.len() == 0 {
        assert(bytes + parameters =~= bytes);
    } else {
        let head = parameters.drop_last();
        assert forall|i: int| 0 <= i < head.len() implies !(0x40 <= #[trigger] head[i] <= 0x7e)
            && head[i] != 0x1b by {
            assert(parameters[i] == head[i]);
        }
        parameters_are_collected(screen, bytes, head);
        assert((bytes + head).push(parameters.last()) =~= bytes + parameters);
    }
}

/// A private mode sequence sets or resets exactly the alternate-screen modes
/// that it lists, whatever was written before it; the final byte says which.
/// The screen is an alternate one as long as one of the modes is set.
pub proof fn a_mode_sequence_switches_the_screen(
    screen: Screen,
    parameters: Seq<u8>,
    enable: bool,
)
    requires
        hint_is_truthful(screen),
        parameters_only(parameters),
        parameters.len() <= 63,
    ensures
        ({
            let last: u8 = if enable {
                0x68
            } else {
                0x6c
            };
            let sequence = seq![0x1b, 0x5b, 0x3f] + parameters + seq![last];
            let after = screen.after(sequence);
            &&& after.position == Position::Ground
            &&& after.modes.mode_47 == if lists_number(parameters, 47) {
                enable
            } else {
                screen.modes.mode_47
            }
            &&& after.modes.mode_1047 == if lists_number(parameters, 1047) {
                enable
            } else {
                screen.modes.mode_1047
            }
            &&& after.modes.mode_1049 == if lists_number(parameters, 1049) {
                enable
            } else {
                screen.modes.mode_1049
            }
            &&& after.hint == TuiHint::AlternateScreen <==> after.modes.mode_47
                || after.modes.mode_1047 || after.modes.mode_1049
        }),
{
    let last: u8 = if enable {
        0x68
    } else {
        0x6c
    };
    let escape = seq![0x1bu8];
    let open = seq![0x1bu8, 0x5b];
    let start = seq![0x1bu8, 0x5b, 0x3f];
    let sequence = start + parameters + seq![last];
    the_hint_follows_the_modes(screen, sequence);
    assert(sequence.drop_last() =~= start + parameters);
    observation_is_independent_of_chunking(screen, start, parameters);
    assert(start.drop_last() =~= open);
    assert(open.drop_last() =~= escape);
    assert(escape.drop_last() =~= Seq::<u8>::empty());
    assert(screen.after(Seq::<u8>::empty()) == screen);
    assert(screen.after(escape).position == Position::Escape);
    assert(screen.after(escape).modes == screen.modes || screen.position is Csi);
    let opened = screen.after(open);
    assert(opened.position == (Position::Csi { bytes: Seq::empty() }));
    let begun = screen.after(start);
    assert(Seq::<u8>::empty().push(0x3f) =~= seq![0x3fu8]);
    assert(begun.position == (Position::Csi { bytes: seq![0x3fu8] }));
    parameters_are_collected(begun, seq![0x3fu8], parameters);
    let bytes = (seq![0x3fu8] + parameters).push(last);
    assert(bytes.subrange(1, bytes.len() - 1) =~= parameters);
}

/// Of a control sequence at most sixty-four bytes are held; a longer one is
/// given up and changes nothing.
pub proof fn long_sequences_are_given_up(screen: Screen, byte: u8)
    requires
        screen.position is Csi,
        !(0x40 <= byte <= 0x7e),
        byte != 0x1b,
    ensures
        screen.position->bytes.len() < 64 ==> screen.after_byte(byte).position == (Position::Csi {
            bytes: screen.position->bytes.push(byte),
        }),
        screen.position->bytes.len() >= 64 ==> screen.after_byte(byte).position
            == Position::Ground,
        screen.after_byte(byte).modes == screen.modes,
{
}

} // verus!
