//! The terminal emulator behind a session.
//!
//! Emulation itself is the `avt` crate's. What an emulator shows is a function
//! of what was done to it since it was opened, so the contracts here name its
//! answers by that list of steps.
use vstd::prelude::*;

use crate::text::texts;

verus! {

/// A virtual terminal of the `avt` crate.
#[verifier::external_type_specification]
#[verifier::external_body]
pub struct ExVt(avt::Vt);

/// A control-sequence parser of the `avt` crate.
#[verifier::external_type_specification]
#[verifier::external_body]
pub struct ExParser(avt::parser::Parser);

/// One thing done to an emulator.
pub enum EmulatorStep {
    /// It was opened with a grid and a scrollback limit.
    Open { columns: nat, rows: nat, scrollback: nat },
    /// One character was fed.
    Character { character: char },
    /// A text was fed as one batch, which also trims the scrollback.
    Batch { text: Seq<char> },
    /// The grid changed.
    Resize { columns: nat, rows: nat },
}

/// What was done to an emulator, in order.
pub uninterp spec fn emulator_steps(vt: avt::Vt) -> Seq<EmulatorStep>;

/// The control text that restores the screen of an emulator.
pub uninterp spec fn emulator_dump(steps: Seq<EmulatorStep>) -> Seq<char>;

/// The unwrapped lines of the primary buffer, scrollback included.
pub uninterp spec fn emulator_text(steps: Seq<EmulatorStep>) -> Seq<Seq<char>>;

/// The number of grid lines in the active buffer, scrollback included.
pub uninterp spec fn emulator_line_count(steps: Seq<EmulatorStep>) -> nat;

/// A grid on which the emulator works: room for a wide character, and a row.
pub open spec fn usable_grid(columns: nat, rows: nat) -> bool {
    columns >= 2 && rows >= 1
}

/// Opens an emulator.
///
/// Calls `avt::Vt::builder` with `size` and `scrollback_limit`, and `build`.
/// An empty grid would make it panic.
#[verifier::external_body]
pub(crate) fn open_emulator(columns: usize, rows: usize, scrollback: usize) -> (vt: avt::Vt)
    requires
        usable_grid(columns as nat, rows as nat),
    ensures
        emulator_steps(vt) == seq![
            EmulatorStep::Open {
                columns: columns as nat,
                rows: rows as nat,
                scrollback: scrollback as nat,
            },
        ],
{
    avt::Vt::builder().size(columns, rows).scrollback_limit(scrollback).build()
}

/// Feeds one character.
///
/// Calls `avt::Vt::feed`.
#[verifier::external_body]
pub(crate) fn feed_character(vt: &mut avt::Vt, character: char)
    ensures
        emulator_steps(*final(vt)) == emulator_steps(*old(vt)).push(
            EmulatorStep::Character { character },
        ),
{
    vt.feed(character)
}

/// Feeds a text as one batch.
///
/// Calls `avt::Vt::feed_str`, whose report of changed lines is not used.
#[verifier::external_body]
pub(crate) fn feed_batch(vt: &mut avt::Vt, text: &str)
    ensures
        emulator_steps(*final(vt)) == emulator_steps(*old(vt)).push(
            EmulatorStep::Batch { text: text@ },
        ),
{
    drop(vt.feed_str(text))
}

/// Changes the grid.
///
/// Calls `avt::Vt::resize`, whose report of changed lines is not used. An
/// empty grid would make it panic.
#[verifier::external_body]
pub(crate) fn resize_emulator(vt: &mut avt::Vt, columns: usize, rows: usize)
    requires
        usable_grid(columns as nat, rows as nat),
    ensures
        emulator_steps(*final(vt)) == emulator_steps(*old(vt)).push(
            EmulatorStep::Resize { columns: columns as nat, rows: rows as nat },
        ),
{
    drop(vt.resize(columns, rows))
}

/// The control text that restores the screen.
///
/// Calls `avt::Vt::dump`.
#[verifier::external_body]
pub(crate) fn dump_emulator(vt: &avt::Vt) -> (dump: String)
    ensures
        dump@ == emulator_dump(emulator_steps(*vt)),
{
    vt.dump()
}

/// The unwrapped lines of the primary buffer.
///
/// Calls `avt::Vt::text`.
#[verifier::external_body]
pub(crate) fn text_of_emulator(vt: &avt::Vt) -> (lines: Vec<String>)
    ensures
        texts(lines@) == emulator_text(emulator_steps(*vt)),
{
    vt.text()
}

/// The number of grid lines in the active buffer.
///
/// Calls `avt::Vt::lines` and counts what it hands out.
#[verifier::external_body]
pub(crate) fn count_emulator_lines(vt: &avt::Vt) -> (count: usize)
    ensures
        count == emulator_line_count(emulator_steps(*vt)),
{
    vt.lines().count()
}

/// A control function that concerns saved lines.
#[derive(Debug, Clone, Copy, PartialEq, Eq, Structural)]
pub enum HistoryControl {
    /// The saved lines are to be erased.
    EraseSavedLines,
    /// The terminal was fully reset.
    FullReset,
}

/// The characters that a control parser was fed.
pub uninterp spec fn parser_input(parser: avt::parser::Parser) -> Seq<char>;

/// The saved-lines control that `next` completes after `input`.
pub uninterp spec fn history_control(input: Seq<char>, next: char) -> Option<HistoryControl>;

/// Opens a control parser.
///
/// Calls `avt::parser::Parser::new`.
#[verifier::external_body]
pub(crate) fn open_parser() -> (parser: avt::parser::Parser)
    ensures
        parser_input(parser) == Seq::<char>::empty(),
{
    avt::parser::Parser::new()
}

/// Feeds one character to a control parser.
///
/// Calls `avt::parser::Parser::feed` and keeps of its answer only whether it
/// is the erasure of saved lines or a full reset.
#[verifier::external_body]
pub(crate) fn feed_parser(parser: &mut avt::parser::Parser, next: char) -> (control: Option<
    HistoryControl,
>)
    ensures
        parser_input(*final(parser)) == parser_input(*old(parser)).push(next),
        control == history_control(parser_input(*old(parser)), next),
{
    match parser.feed(next) {
        Some(avt::parser::Function::Ed(avt::parser::EdScope::SavedLines)) => Some(
            HistoryControl::EraseSavedLines,
        ),
        Some(avt::parser::Function::Ris) => Some(HistoryControl::FullReset),
        _ => None,
    }
}

} // verus!
