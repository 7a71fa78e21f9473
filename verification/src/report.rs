//! Shell-awareness reports: the records a shell integration writes and what
//! they say.
//!
//! A record is nine NUL-terminated fields. The stream is untrusted: records
//! that are too large or not well formed are dropped whole, and reading goes
//! on with the next record.
use vstd::prelude::*;
use vstd::string::*;
use vstd::utf8::{decode_utf8, encode_utf8, valid_utf8};

use crate::proto::{
    is_valid_running_command, line_of, valid_running_command, CommandLine, Line, PromptPhase,
    ShellCapabilities, ShellDescriptor, ShellType,
};
use crate::text::{
    chars_of, decimal, decimals_are_read_back, decoded_text, optional, parse_number, parsed_number,
    same_text, spells,
};

verus! {

pub const REPORT_MAGIC_V1: &'static str = "rmux-shell-v1";

pub const REPORT_MAGIC_V2: &'static str = "rmux-shell-v2";

pub const REPORT_FIELD_COUNT: usize = 9;

pub const MAX_FIELD_BYTES: usize = 4096;

pub const MAX_RECORD_BYTES: usize = 16_384;

pub const MAX_COMMAND_LINE_BYTES: usize = 4096;

/// A validated, complete shell-awareness snapshot from the local shell.
///
/// This deliberately has no session revision, observed output sequence, TUI
/// hint, or visibility policy fields. Those are owned by the daemon, not by the
/// reporting shell.
#[derive(PartialEq, Eq)]
pub struct ShellReport {
    pub shell: ShellDescriptor,
    pub cwd: Option<String>,
    pub prompt_phase: PromptPhase,
    pub current_command_line: Option<CommandLine>,
    pub running_command: Option<String>,
}

impl Clone for ShellReport {
    fn clone(&self) -> (copy: Self)
        ensures
            copy == *self,
    {
        ShellReport {
            shell: self.shell,
            cwd: self.cwd.clone(),
            prompt_phase: self.prompt_phase,
            current_command_line: self.current_command_line.clone(),
            running_command: self.running_command.clone(),
        }
    }
}

/// The mathematical content of a [`ShellReport`].
#[verifier::ext_equal]
pub struct Report {
    pub shell: ShellDescriptor,
    pub cwd: Option<Seq<char>>,
    pub phase: PromptPhase,
    pub line: Option<Line>,
    pub running: Option<Seq<char>>,
}

impl View for ShellReport {
    type V = Report;

    open spec fn view(&self) -> Report {
        Report {
            shell: self.shell,
            cwd: optional(self.cwd),
            phase: self.prompt_phase,
            line: line_of(self.current_command_line),
            running: optional(self.running_command),
        }
    }
}

pub open spec fn reports_of(list: Seq<ShellReport>) -> Seq<Report> {
    list.map_values(|report: ShellReport| report@)
}

/// The shell that a name denotes.
pub open spec fn shell_named(name: Seq<char>) -> Option<ShellType> {
    if name == "bash"@ {
        Some(ShellType::Bash)
    } else if name == "fish"@ {
        Some(ShellType::Fish)
    } else if name == "pwsh"@ {
        Some(ShellType::Pwsh)
    } else if name == "zsh"@ {
        Some(ShellType::Zsh)
    } else if name == "cmd"@ {
        Some(ShellType::Cmd)
    } else if name == "sh"@ {
        Some(ShellType::Sh)
    } else if name == "unknown"@ {
        Some(ShellType::Unknown)
    } else {
        None
    }
}

/// The phase that a name denotes.
pub open spec fn phase_named(name: Seq<char>) -> Option<PromptPhase> {
    if name == "unknown"@ {
        Some(PromptPhase::Unknown)
    } else if name == "at_prompt"@ {
        Some(PromptPhase::AtPrompt)
    } else if name == "editing"@ {
        Some(PromptPhase::Editing)
    } else if name == "running"@ {
        Some(PromptPhase::Running)
    } else {
        None
    }
}

/// The words between the commas of a text: one more than there are commas.
pub open spec fn comma_words(text: Seq<char>) -> Seq<Seq<char>>
    decreases text.len(),
{
    if text.len() == 0 {
        seq![Seq::empty()]
    } else {
        let words = comma_words(text.drop_last());
        if text.last() == ',' {
            words.push(Seq::empty())
        } else {
            words.update(words.len() - 1, words.last().push(text.last()))
        }
    }
}

/// Capabilities with one more, named by `word`; nothing when the name is
/// unknown or the capability was there already.
pub open spec fn with_capability(
    capabilities: ShellCapabilities,
    word: Seq<char>,
) -> Option<ShellCapabilities> {
    if word == "cwd"@ && !capabilities.reports_cwd {
        Some(ShellCapabilities { reports_cwd: true, ..capabilities })
    } else if word == "command_line"@ && !capabilities.reports_command_line {
        Some(ShellCapabilities { reports_command_line: true, ..capabilities })
    } else if word == "cursor"@ && !capabilities.reports_cursor {
        Some(ShellCapabilities { reports_cursor: true, ..capabilities })
    } else if word == "prompt_phase"@ && !capabilities.reports_prompt_phase {
        Some(ShellCapabilities { reports_prompt_phase: true, ..capabilities })
    } else if word == "running_command"@ && !capabilities.reports_running_command {
        Some(ShellCapabilities { reports_running_command: true, ..capabilities })
    } else {
        None
    }
}

pub open spec fn with_capabilities(words: Seq<Seq<char>>) -> Option<ShellCapabilities>
    decreases words.len(),
{
    if words.len() == 0 {
        Some(ShellCapabilities::none())
    } else {
        match with_capabilities(words.drop_last()) {
            Some(capabilities) => with_capability(capabilities, words.last()),
            None => None,
        }
    }
}

/// The capabilities that a comma-separated list announces.
pub open spec fn capabilities_listed(text: Seq<char>) -> Option<ShellCapabilities> {
    if text.len() == 0 {
        Some(ShellCapabilities::none())
    } else {
        with_capabilities(comma_words(text))
    }
}

/// An optional number: the empty text stands for none. Nothing when the text
/// is neither empty nor a number of at most `max`.
pub open spec fn optional_number(text: Seq<char>, max: nat) -> Option<Option<nat>> {
    if text.len() == 0 {
        Some(None)
    } else {
        match parsed_number(text, max) {
            Some(number) => Some(Some(number)),
            None => None,
        }
    }
}

/// Whether the three active-text fields say that there is no active text.
pub open spec fn absent(present: Seq<char>, text: Seq<char>, cursor: Seq<char>) -> bool {
    present == "0"@ && text.len() == 0 && cursor.len() == 0
}

/// The editable line that the active-text fields describe; `Some(None)` when
/// they say that there is none, nothing when they are not well formed.
pub open spec fn line_described(
    present: Seq<char>,
    text: Seq<char>,
    cursor: Seq<char>,
) -> Option<Option<Line>> {
    if absent(present, text, cursor) {
        Some(None)
    } else if present == "1"@ && encode_utf8(text).len() <= MAX_COMMAND_LINE_BYTES {
        match optional_number(cursor, u32::MAX as nat) {
            Some(offset) => if offset is Some && offset->0 > text.len() {
                None
            } else {
                Some(Some(Line { text, cursor: offset }))
            },
            None => None,
        }
    } else {
        None
    }
}

/// The running-command summary that the active-text fields describe. A text
/// that is not a safe summary is left out without making the record invalid.
pub open spec fn running_described(
    present: Seq<char>,
    text: Seq<char>,
    cursor: Seq<char>,
) -> Option<Option<Seq<char>>> {
    if absent(present, text, cursor) {
        Some(None)
    } else if present == "1"@ && cursor.len() == 0 {
        Some(
            if valid_running_command(text) {
                Some(text)
            } else {
                None
            },
        )
    } else {
        None
    }
}

/// The line and the running command of a record, as its format and phase give
/// them.
pub open spec fn active_described(
    second_format: bool,
    phase: PromptPhase,
    present: Seq<char>,
    text: Seq<char>,
    cursor: Seq<char>,
) -> Option<(Option<Line>, Option<Seq<char>>)> {
    if second_format && phase == PromptPhase::Running {
        match running_described(present, text, cursor) {
            Some(running) => Some((None, running)),
            None => None,
        }
    } else if second_format && phase == PromptPhase::Unknown {
        if absent(present, text, cursor) {
            Some((None, None))
        } else {
            None
        }
    } else {
        match line_described(present, text, cursor) {
            Some(line) => Some((line, None)),
            None => None,
        }
    }
}

/// Whether a report says only what its capabilities announce.
pub open spec fn announced(
    second_format: bool,
    active: bool,
    report: Report,
) -> bool {
    let capabilities = report.shell.capabilities;
    &&& report.cwd is Some ==> capabilities.reports_cwd
    &&& report.line is Some ==> capabilities.reports_command_line
    &&& report.line is Some && report.line->0.cursor is Some ==> capabilities.reports_cursor
    &&& second_format && report.phase == PromptPhase::Running && active
        ==> capabilities.reports_running_command
    &&& report.phase != PromptPhase::Unknown ==> capabilities.reports_prompt_phase
}

/// Whether nine fields have the shape of a record: all of them text, the first
/// one a known format.
pub open spec fn well_encoded(fields: Seq<Seq<u8>>) -> bool {
    &&& fields.len() == REPORT_FIELD_COUNT
    &&& forall|i: int| 0 <= i < fields.len() ==> valid_utf8(#[trigger] fields[i])
}

/// The report that the fields of a record make.
pub open spec fn report_of(fields: Seq<Seq<u8>>) -> Option<Report> {
    if !well_encoded(fields) {
        None
    } else {
        let magic = decode_utf8(fields[0]);
        let second_format = magic == REPORT_MAGIC_V2@;
        let cwd = decode_utf8(fields[4]);
        let present = decode_utf8(fields[6]);
        let text = decode_utf8(fields[7]);
        let cursor = decode_utf8(fields[8]);
        match (
            shell_named(decode_utf8(fields[1])),
            optional_number(decode_utf8(fields[2]), u16::MAX as nat),
            capabilities_listed(decode_utf8(fields[3])),
            phase_named(decode_utf8(fields[5])),
        ) {
            (Some(shell_type), Some(version), Some(capabilities), Some(phase)) => {
                match active_described(second_format, phase, present, text, cursor) {
                    Some((line, running)) => {
                        let report = Report {
                            shell: ShellDescriptor {
                                shell_type,
                                integration_version: match version {
                                    Some(number) => Some(number as u16),
                                    None => None,
                                },
                                capabilities,
                            },
                            cwd: if cwd.len() == 0 {
                                None
                            } else {
                                Some(cwd)
                            },
                            phase,
                            line,
                            running,
                        };
                        if (magic == REPORT_MAGIC_V1@ || second_format) && announced(
                            second_format,
                            present == "1"@,
                            report,
                        ) {
                            Some(report)
                        } else {
                            None
                        }
                    },
                    None => None,
                }
            },
            _ => None,
        }
    }
}

fn parse_shell_type(value: &str) -> (shell: Option<ShellType>)
    ensures
        shell == shell_named(value@),
{
    if same_text(value, "bash") {
        Some(ShellType::Bash)
    } else if same_text(value, "fish") {
        Some(ShellType::Fish)
    } else if same_text(value, "pwsh") {
        Some(ShellType::Pwsh)
    } else if same_text(value, "zsh") {
        Some(ShellType::Zsh)
    } else if same_text(value, "cmd") {
        Some(ShellType::Cmd)
    } else if same_text(value, "sh") {
        Some(ShellType::Sh)
    } else if same_text(value, "unknown") {
        Some(ShellType::Unknown)
    } else {
        None
    }
}

fn parse_prompt_phase(value: &str) -> (phase: Option<PromptPhase>)
    ensures
        phase == phase_named(value@),
{
    if same_text(value, "unknown") {
        Some(PromptPhase::Unknown)
    } else if same_text(value, "at_prompt") {
        Some(PromptPhase::AtPrompt)
    } else if same_text(value, "editing") {
        Some(PromptPhase::Editing)
    } else if same_text(value, "running") {
        Some(PromptPhase::Running)
    } else {
        None
    }
}

/// Adds the capability that a range of characters names.
fn add_capability(
    capabilities: ShellCapabilities,
    chars: &Vec<char>,
    from: usize,
    to: usize,
) -> (more: Option<ShellCapabilities>)
    requires
        from <= to <= chars@.len(),
    ensures
        more == with_capability(capabilities, chars@.subrange(from as int, to as int)),
{
    proof {
        reveal_strlit("cwd");
        reveal_strlit("command_line");
        reveal_strlit("cursor");
        reveal_strlit("prompt_phase");
        reveal_strlit("running_command");
        assert("cwd"@.len() != "cursor"@.len());
        assert("cursor"@.len() != "command_line"@.len());
        assert("prompt_phase"@[0] != "command_line"@[0]);
    }
    let mut more = capabilities;
    let known = if spells(chars, from, to, "cwd") {
        let duplicate = more.reports_cwd;
        more.reports_cwd = true;
        !duplicate
    } else if spells(chars, from, to, "command_line") {
        let duplicate = more.reports_command_line;
        more.reports_command_line = true;
        !duplicate
    } else if spells(chars, from, to, "cursor") {
        let duplicate = more.reports_cursor;
        more.reports_cursor = true;
        !duplicate
    } else if spells(chars, from, to, "prompt_phase") {
        let duplicate = more.reports_prompt_phase;
        more.reports_prompt_phase = true;
        !duplicate
    } else if spells(chars, from, to, "running_command") {
        let duplicate = more.reports_running_command;
        more.reports_running_command = true;
        !duplicate
    } else {
        false
    };
    if known {
        Some(more)
    } else {
        None
    }
}

proof fn comma_words_prefix_fails(text: Seq<char>, n: int)
    requires
        0 <= n <= text.len(),
        comma_words(text.take(n)).len() > 0,
        with_capabilities(comma_words(text.take(n)).drop_last()) is None,
    ensures
        with_capabilities(comma_words(text)) is None,
        with_capabilities(comma_words(text).drop_last()) is None,
        comma_words(text).len() > 0,
    decreases text.len(),
{
    if n == text.len() {
        assert(text.take(n) =~= text);
    } else {
        let shorter = text.drop_last();
        assert(shorter.take(n) =~= text.take(n));
        comma_words_prefix_fails(shorter, n);
        let words = comma_words(shorter);
        if text.last() == ',' {
            assert(words.push(Seq::empty()).drop_last() =~= words);
        } else {
            let changed = words.update(words.len() - 1, words.last().push(text.last()));
            assert(changed.drop_last() =~= words.drop_last());
        }
    }
}

fn parse_capabilities(value: &str) -> (capabilities: Option<ShellCapabilities>)
    ensures
        capabilities == capabilities_listed(value@),
{
    let chars = chars_of(value);
    if chars.len() == 0 {
        return Some(ShellCapabilities::default());
    }
    let mut capabilities = ShellCapabilities::default();
    let mut start: usize = 0;
    let mut index: usize = 0;
    let ghost mut done: Seq<Seq<char>> = Seq::empty();
    assert(chars@.take(0) =~= Seq::empty());
    assert(chars@.subrange(0, 0) =~= Seq::empty());
    assert(done.push(Seq::<char>::empty()) =~= seq![Seq::<char>::empty()]);
    while index < chars.len()
        invariant
            start <= index <= chars@.len(),
            chars@ == value@,
            chars@.len() > 0,
            comma_words(chars@.take(index as int)) == done.push(
                chars@.subrange(start as int, index as int),
            ),
            with_capabilities(done) == Some(capabilities),
        decreases chars@.len() - index,
    {
        let ghost words = comma_words(chars@.take(index as int));
        let ghost word = chars@.subrange(start as int, index as int);
        proof {
            let taken = chars@.take(index + 1);
            assert(taken.drop_last() =~= chars@.take(index as int));
            assert(taken.last() == chars@[index as int]);
            assert(words.drop_last() =~= done);
            assert(words.last() == word);
        }
        if chars[index] == ',' {
            proof {
                assert(comma_words(chars@.take(index + 1)) == words.push(Seq::empty()));
                assert(words.push(Seq::empty()).drop_last() =~= words);
                assert(chars@.subrange(index + 1, index + 1) =~= Seq::empty());
            }
            match add_capability(capabilities, &chars, start, index) {
                Some(more) => {
                    capabilities = more;
                },
                None => {
                    proof {
                        comma_words_prefix_fails(chars@, index + 1);
                    }
                    return None;
                },
            }
            proof {
                done = words;
            }
            start = index + 1;
        } else {
            proof {
                let longer = chars@.subrange(start as int, index + 1);
                assert(longer =~= word.push(chars@[index as int]));
                assert(words.update(words.len() - 1, longer) =~= done.push(longer));
            }
        }
        index += 1;
    }
    proof {
        assert(chars@.take(index as int) =~= chars@);
        assert(comma_words(chars@).drop_last() =~= done);
        assert(comma_words(chars@).last() == chars@.subrange(start as int, index as int));
    }
    add_capability(capabilities, &chars, start, chars.len())
}

fn parse_optional_text(value: String) -> (text: Option<String>)
    ensures
        optional(text) == if value@.len() == 0 {
            None
        } else {
            Some(value@)
        },
{
    if value.as_str().is_empty() {
        None
    } else {
        Some(value)
    }
}

/// Reads an optional number of at most `max`. The outer option is empty when
/// the text is not well formed.
fn parse_optional_number(value: &str, max: u64) -> (number: Option<Option<u64>>)
    ensures
        match number {
            Some(Some(n)) => n <= max && optional_number(value@, max as nat) == Some(
                Some(n as nat),
            ),
            Some(None) => optional_number(value@, max as nat) == Some(None::<nat>),
            None => optional_number(value@, max as nat) is None,
        },
{
    if value.is_empty() {
        Some(None)
    } else {
        match parse_number(value, max) {
            Some(number) => Some(Some(number)),
            None => None,
        }
    }
}

fn parse_absent_active_text(present: &str, text: &str, cursor: &str) -> (is_absent: bool)
    ensures
        is_absent == absent(present@, text@, cursor@),
{
    same_text(present, "0") && text.is_empty() && cursor.is_empty()
}

/// Reads the active-text fields as an editable line. The outer option is empty
/// when they are not well formed.
fn parse_command_line(present: &str, text: &str, cursor: &str) -> (line: Option<
    Option<CommandLine>,
>)
    ensures
        match line {
            Some(line) => line_described(present@, text@, cursor@) == Some(line_of(line)),
            None => line_described(present@, text@, cursor@) is None,
        },
{
    if parse_absent_active_text(present, text, cursor) {
        return Some(None);
    }
    if !same_text(present, "1") || text.as_bytes().len() > MAX_COMMAND_LINE_BYTES {
        return None;
    }
    match parse_optional_number(cursor, u32::MAX as u64) {
        Some(offset) => {
            let line = CommandLine {
                text: text.to_owned(),
                cursor_scalar_offset: match offset {
                    Some(number) => Some(number as u32),
                    None => None,
                },
            };
            if line.has_valid_cursor() {
                Some(Some(line))
            } else {
                None
            }
        },
        None => None,
    }
}

/// Reads the active-text fields as a running-command summary.
///
/// An overlong or control-containing command must not leave the prior editable
/// state visible until the next prompt. The trustworthy running phase is kept,
/// but an invalid title preview is omitted instead of retained or truncated.
fn parse_running_command(present: &str, text: &str, cursor: &str) -> (running: Option<
    Option<String>,
>)
    ensures
        match running {
            Some(running) => running_described(present@, text@, cursor@) == Some(
                optional(running),
            ),
            None => running_described(present@, text@, cursor@) is None,
        },
{
    if parse_absent_active_text(present, text, cursor) {
        return Some(None);
    }
    if same_text(present, "1") && cursor.is_empty() {
        if is_valid_running_command(text) {
            Some(Some(text.to_owned()))
        } else {
            Some(None)
        }
    } else {
        None
    }
}

/// Reads the active-text fields as the format and the phase of the record
/// say.
///
/// The second format preserves the nine-field record shape. Its final three
/// fields describe one phase-exclusive active value: an editable buffer at a
/// prompt, or a non-editable command summary while running. The first format
/// keeps its first command-line semantics so existing integrations remain
/// compatible.
fn parse_active_text(
    second_format: bool,
    phase: PromptPhase,
    present: &str,
    text: &str,
    cursor: &str,
) -> (active: Option<(Option<CommandLine>, Option<String>)>)
    ensures
        match active {
            Some((line, running)) => active_described(
                second_format,
                phase,
                present@,
                text@,
                cursor@,
            ) == Some((line_of(line), optional(running))),
            None => active_described(second_format, phase, present@, text@, cursor@) is None,
        },
{
    if second_format && phase == PromptPhase::Running {
        match parse_running_command(present, text, cursor) {
            Some(running) => Some((None, running)),
            None => None,
        }
    } else if second_format && phase == PromptPhase::Unknown {
        if parse_absent_active_text(present, text, cursor) {
            Some((None, None))
        } else {
            None
        }
    } else {
        match parse_command_line(present, text, cursor) {
            Some(line) => Some((line, None)),
            None => None,
        }
    }
}

/// The contents of the fields of a record.
pub open spec fn fields_of(fields: Seq<Vec<u8>>) -> Seq<Seq<u8>> {
    fields.map_values(|field: Vec<u8>| field@)
}

/// Reads the fields of one record, if all of them are text.
fn decode_fields(fields: &Vec<Vec<u8>>) -> (texts: Option<Vec<String>>)
    requires
        fields@.len() == REPORT_FIELD_COUNT,
    ensures
        texts is Some <==> well_encoded(fields_of(fields@)),
        texts matches Some(texts) ==> texts@.len() == fields@.len() && forall|i: int|
            0 <= i < fields@.len() ==> (#[trigger] texts@[i])@ == decode_utf8(
                fields_of(fields@)[i],
            ),
{
    let mut texts: Vec<String> = Vec::new();
    let mut index: usize = 0;
    while index < fields.len()
        invariant
            index <= fields@.len(),
            fields@.len() == REPORT_FIELD_COUNT,
            texts@.len() == index,
            forall|i: int|
                0 <= i < index ==> valid_utf8(#[trigger] fields_of(fields@)[i]) && texts@[i]@
                    == decode_utf8(fields_of(fields@)[i]),
        decreases fields@.len() - index,
    {
        assert(fields_of(fields@)[index as int] == fields@[index as int]@);
        match decoded_text(fields[index].as_slice()) {
            Some(text) => texts.push(text),
            None => {
                return None;
            },
        }
        index += 1;
    }
    Some(texts)
}

/// Reads the fields of one record.
pub fn parse_report(fields: &Vec<Vec<u8>>) -> (report: Option<ShellReport>)
    ensures
        match report {
            Some(report) => report_of(fields_of(fields@)) == Some(report@),
            None => report_of(fields_of(fields@)) is None,
        },
{
    if fields.len() != REPORT_FIELD_COUNT {
        return None;
    }
    let texts = match decode_fields(fields) {
        Some(texts) => texts,
        None => {
            return None;
        },
    };
    let ghost magic = decode_utf8(fields_of(fields@)[0]);
    assert(texts@[0]@ == magic);
    let second_format = same_text(texts[0].as_str(), REPORT_MAGIC_V2);
    if !second_format && !same_text(texts[0].as_str(), REPORT_MAGIC_V1) {
        return None;
    }
    let shell_type = match parse_shell_type(texts[1].as_str()) {
        Some(shell_type) => shell_type,
        None => {
            return None;
        },
    };
    let integration_version = match parse_optional_number(texts[2].as_str(), u16::MAX as u64) {
        Some(Some(number)) => Some(number as u16),
        Some(None) => None,
        None => {
            return None;
        },
    };
    let capabilities = match parse_capabilities(texts[3].as_str()) {
        Some(capabilities) => capabilities,
        None => {
            return None;
        },
    };
    let cwd = parse_optional_text(texts[4].clone());
    let prompt_phase = match parse_prompt_phase(texts[5].as_str()) {
        Some(prompt_phase) => prompt_phase,
        None => {
            return None;
        },
    };
    let present = texts[6].as_str();
    let (current_command_line, running_command) = match parse_active_text(
        second_format,
        prompt_phase,
        present,
        texts[7].as_str(),
        texts[8].as_str(),
    ) {
        Some(active) => active,
        None => {
            return None;
        },
    };
    let has_cursor = match &current_command_line {
        Some(line) => line.cursor_scalar_offset.is_some(),
        None => false,
    };
    if cwd.is_some() && !capabilities.reports_cwd || current_command_line.is_some()
        && !capabilities.reports_command_line || has_cursor && !capabilities.reports_cursor
        || second_format && prompt_phase == PromptPhase::Running && same_text(present, "1")
        && !capabilities.reports_running_command || prompt_phase != PromptPhase::Unknown
        && !capabilities.reports_prompt_phase {
        return None;
    }
    Some(
        ShellReport {
            shell: ShellDescriptor { shell_type, integration_version, capabilities },
            cwd,
            prompt_phase,
            current_command_line,
            running_command,
        },
    )
}

/// Bytes split at NUL: the terminated fields, and what follows the last NUL.
pub open spec fn split_fields(bytes: Seq<u8>) -> (Seq<Seq<u8>>, Seq<u8>)
    decreases bytes.len(),
{
    if bytes.len() == 0 {
        (Seq::empty(), Seq::empty())
    } else {
        let (fields, field) = split_fields(bytes.drop_last());
        if bytes.last() == 0 {
            (fields.push(field), Seq::empty())
        } else {
            (fields, field.push(bytes.last()))
        }
    }
}

/// How many bytes the fields hold in all.
pub open spec fn total_bytes(fields: Seq<Seq<u8>>) -> nat
    decreases fields.len(),
{
    if fields.len() == 0 {
        0
    } else {
        total_bytes(fields.drop_last()) + fields.last().len()
    }
}

/// Whether a record exceeds a size limit: a field of more than
/// [`MAX_FIELD_BYTES`], or more than [`MAX_RECORD_BYTES`] in all.
pub open spec fn oversized(fields: Seq<Seq<u8>>) -> bool {
    ||| exists|i: int| 0 <= i < fields.len() && (#[trigger] fields[i]).len() > MAX_FIELD_BYTES
    ||| total_bytes(fields) > MAX_RECORD_BYTES
}

/// The report of a complete record, if it is small enough and well formed.
pub open spec fn record_report(fields: Seq<Seq<u8>>) -> Option<Report> {
    if oversized(fields) {
        None
    } else {
        report_of(fields)
    }
}

/// What reading `bytes` gives after the unfinished record `pending`: the
/// reports of the records that were completed, and the record left unfinished.
pub open spec fn read_records(pending: Seq<u8>, bytes: Seq<u8>) -> (Seq<Report>, Seq<u8>)
    decreases bytes.len(),
{
    if bytes.len() == 0 {
        (Seq::empty(), pending)
    } else {
        let (reports, rest) = read_records(pending, bytes.drop_last());
        let record = rest.push(bytes.last());
        let fields = split_fields(record).0;
        if fields.len() < REPORT_FIELD_COUNT {
            (reports, record)
        } else {
            match record_report(fields) {
                Some(report) => (reports.push(report), Seq::empty()),
                None => (reports, Seq::empty()),
            }
        }
    }
}

/// Reads the records of one stream, which may arrive in pieces of any size.
pub struct RecordParser {
    fields: Vec<Vec<u8>>,
    field: Vec<u8>,
    record_bytes: usize,
    discard_delimiters_remaining: Option<usize>,
    pending: Ghost<Seq<u8>>,
}

impl Default for RecordParser {
    fn default() -> (parser: Self)
        ensures
            parser.wf(),
            parser.pending() == Seq::<u8>::empty(),
    {
        let parser = RecordParser {
            fields: Vec::new(),
            field: Vec::new(),
            record_bytes: 0,
            discard_delimiters_remaining: None,
            pending: Ghost(Seq::empty()),
        };
        proof {
            empty_record_is_fresh();
            assert(fields_of(parser.fields@) =~= Seq::empty());
        }
        parser
    }
}

impl RecordParser {
    /// The bytes of the record that is not finished yet.
    pub closed spec fn pending(&self) -> Seq<u8> {
        self.pending@
    }

    /// While a record is within its limits its fields are kept; once it is
    /// not, only its delimiters are counted.
    pub closed spec fn wf(&self) -> bool {
        let (fields, field) = split_fields(self.pending@);
        &&& fields.len() < REPORT_FIELD_COUNT
        &&& match self.discard_delimiters_remaining {
            None => {
                &&& fields_of(self.fields@) == fields
                &&& self.field@ == field
                &&& self.record_bytes == total_bytes(fields.push(field))
                &&& !oversized(fields.push(field))
            },
            Some(remaining) => {
                &&& remaining == REPORT_FIELD_COUNT - fields.len()
                &&& oversized(fields.push(field))
                &&& self.fields@.len() == 0
                &&& self.field@.len() == 0
                &&& self.record_bytes == 0
            },
        }
    }

    /// Reads the next bytes of the stream and returns the reports that they
    /// complete.
    pub fn push(&mut self, bytes: &[u8]) -> (reports: Vec<ShellReport>)
        requires
            old(self).wf(),
        ensures
            final(self).wf(),
            (reports_of(reports@), final(self).pending()) == read_records(
                old(self).pending(),
                bytes@,
            ),
    {
        let mut reports: Vec<ShellReport> = Vec::new();
        let mut index: usize = 0;
        let ghost start = self.pending@;
        assert(bytes@.take(0) =~= Seq::empty());
        assert(reports_of(reports@) =~= Seq::empty());
        while index < bytes.len()
            invariant
                index <= bytes@.len(),
                self.wf(),
                (reports_of(reports@), self.pending@) == read_records(
                    start,
                    bytes@.take(index as int),
                ),
            decreases bytes@.len() - index,
        {
            proof {
                let taken = bytes@.take(index + 1);
                assert(taken.drop_last() =~= bytes@.take(index as int));
                assert(taken.last() == bytes@[index as int]);
            }
            let ghost before = reports@;
            match self.read(bytes[index]) {
                Some(report) => {
                    reports.push(report);
                    assert(reports_of(reports@) =~= reports_of(before).push(report@));
                },
                None => {},
            }
            index += 1;
        }
        assert(bytes@.take(index as int) =~= bytes@);
        reports
    }

    /// Reads one byte; returns the report that it completes, if any.
    fn read(&mut self, byte: u8) -> (report: Option<ShellReport>)
        requires
            old(self).wf(),
        ensures
            final(self).wf(),
            ({
                let record = old(self).pending().push(byte);
                let fields = split_fields(record).0;
                if fields.len() < REPORT_FIELD_COUNT {
                    report is None && final(self).pending() == record
                } else {
                    final(self).pending() == Seq::<u8>::empty() && match report {
                        Some(report) => record_report(fields) == Some(report@),
                        None => record_report(fields) is None,
                    }
                }
            }),
    {
        let ghost before = self.pending@;
        let ghost (fields, field) = split_fields(before);
        let ghost record = before.push(byte);
        proof {
            assert(record.drop_last() =~= before);
            total_of_push(fields, field);
            total_of_push(fields, field.push(byte));
            assert(fields.push(field).push(Seq::empty()).last().len() == 0);
            total_of_push(fields.push(field), Seq::empty());
            if byte == 0 {
                oversized_push(fields.push(field), Seq::empty());
            } else {
                oversized_grows(fields, field, byte);
            }
        }
        match self.discard_delimiters_remaining {
            Some(remaining) => {
                if byte == 0 {
                    if remaining <= 1 {
                        self.discard_delimiters_remaining = None;
                        self.pending = Ghost(Seq::empty());
                        proof {
                            empty_record_is_fresh();
                            assert(fields_of(self.fields@) =~= Seq::empty());
                            assert(self.field@ =~= Seq::empty());
                        }
                        return None;
                    }
                    self.discard_delimiters_remaining = Some(remaining - 1);
                }
                self.pending = Ghost(record);
                None
            },
            None => {
                if byte == 0 {
                    self.complete_field()
                } else if self.field.len() >= MAX_FIELD_BYTES || self.record_bytes
                    >= MAX_RECORD_BYTES {
                    self.discard_record(Ghost(record));
                    None
                } else {
                    self.field.push(byte);
                    self.record_bytes += 1;
                    self.pending = Ghost(record);
                    None
                }
            },
        }
    }

    /// Ends the current field, and the record when it was the last one.
    fn complete_field(&mut self) -> (report: Option<ShellReport>)
        requires
            old(self).wf(),
            old(self).discard_delimiters_remaining is None,
        ensures
            final(self).wf(),
            ({
                let record = old(self).pending().push(0);
                let fields = split_fields(record).0;
                if fields.len() < REPORT_FIELD_COUNT {
                    report is None && final(self).pending() == record
                } else {
                    final(self).pending() == Seq::<u8>::empty() && match report {
                        Some(report) => record_report(fields) == Some(report@),
                        None => record_report(fields) is None,
                    }
                }
            }),
    {
        let ghost before = self.pending@;
        let ghost (fields, field) = split_fields(before);
        let ghost record = before.push(0u8);
        proof {
            assert(record.drop_last() =~= before);
            total_of_push(fields.push(field), Seq::empty());
            oversized_push(fields.push(field), Seq::empty());
        }
        let mut finished: Vec<u8> = Vec::new();
        std::mem::swap(&mut finished, &mut self.field);
        self.fields.push(finished);
        self.pending = Ghost(record);
        assert(fields_of(self.fields@) =~= fields.push(field));
        if self.fields.len() != REPORT_FIELD_COUNT {
            assert(self.field@ =~= Seq::empty());
            return None;
        }
        let mut completed: Vec<Vec<u8>> = Vec::new();
        std::mem::swap(&mut completed, &mut self.fields);
        self.record_bytes = 0;
        self.pending = Ghost(Seq::empty());
        proof {
            empty_record_is_fresh();
            assert(fields_of(self.fields@) =~= Seq::empty());
            assert(self.field@ =~= Seq::empty());
        }
        parse_report(&completed)
    }

    /// Gives the record up: its remaining fields are skipped so that the byte
    /// after them starts a fresh record.
    fn discard_record(&mut self, record: Ghost<Seq<u8>>)
        requires
            old(self).wf(),
            old(self).discard_delimiters_remaining is None,
            split_fields(record@).0 == split_fields(old(self).pending()).0,
            oversized(split_fields(record@).0.push(split_fields(record@).1)),
        ensures
            final(self).wf(),
            final(self).pending() == record@,
    {
        assert(fields_of(self.fields@).len() == self.fields@.len());
        let delimiters: usize = REPORT_FIELD_COUNT - self.fields.len();
        self.fields.clear();
        self.field.clear();
        self.record_bytes = 0;
        self.discard_delimiters_remaining = Some(delimiters);
        self.pending = record;
    }
}

proof fn total_of_push(fields: Seq<Seq<u8>>, field: Seq<u8>)
    ensures
        total_bytes(fields.push(field)) == total_bytes(fields) + field.len(),
{
    assert(fields.push(field).drop_last() =~= fields);
}

proof fn empty_record_is_fresh()
    ensures
        split_fields(Seq::empty()) == (Seq::<Seq<u8>>::empty(), Seq::<u8>::empty()),
        !oversized(Seq::<Seq<u8>>::empty().push(Seq::empty())),
        total_bytes(Seq::<Seq<u8>>::empty().push(Seq::empty())) == 0,
{
    total_of_push(Seq::empty(), Seq::empty());
}

/// An empty further field does not change whether a record is too large.
proof fn oversized_push(fields: Seq<Seq<u8>>, field: Seq<u8>)
    requires
        field.len() == 0,
    ensures
        oversized(fields.push(field)) == oversized(fields),
{
    let more = fields.push(field);
    total_of_push(fields, field);
    if oversized(fields) && total_bytes(fields) <= MAX_RECORD_BYTES {
        let i = choose|i: int|
            0 <= i < fields.len() && (#[trigger] fields[i]).len() > MAX_FIELD_BYTES;
        assert(more[i] == fields[i]);
    }
    if oversized(more) && total_bytes(more) <= MAX_RECORD_BYTES {
        let i = choose|i: int|
            0 <= i < more.len() && (#[trigger] more[i]).len() > MAX_FIELD_BYTES;
        assert(fields[i] == more[i]);
    }
}

/// One more byte makes a record too large when it was, or when the byte is
/// beyond a limit.
proof fn oversized_grows(fields: Seq<Seq<u8>>, field: Seq<u8>, byte: u8)
    ensures
        oversized(fields.push(field.push(byte))) == (oversized(fields.push(field)) || field.len()
            >= MAX_FIELD_BYTES || total_bytes(fields.push(field)) >= MAX_RECORD_BYTES),
{
    let before = fields.push(field);
    let after = fields.push(field.push(byte));
    total_of_push(fields, field);
    total_of_push(fields, field.push(byte));
    assert forall|i: int| 0 <= i < fields.len() implies before[i] == after[i] by {}
    if exists|i: int| 0 <= i < before.len() && (#[trigger] before[i]).len() > MAX_FIELD_BYTES {
        let i = choose|i: int|
            0 <= i < before.len() && (#[trigger] before[i]).len() > MAX_FIELD_BYTES;
        assert(after[i].len() > MAX_FIELD_BYTES);
    }
    if field.len() >= MAX_FIELD_BYTES {
        assert(after[fields.len() as int].len() > MAX_FIELD_BYTES);
    }
    if exists|i: int| 0 <= i < after.len() && (#[trigger] after[i]).len() > MAX_FIELD_BYTES {
        let i = choose|i: int|
            0 <= i < after.len() && (#[trigger] after[i]).len() > MAX_FIELD_BYTES;
        if i < fields.len() {
            assert(before[i].len() > MAX_FIELD_BYTES);
        }
    }
}

/// How the stream is cut into pieces makes no difference to the reports.
pub proof fn reading_is_independent_of_chunking(pending: Seq<u8>, a: Seq<u8>, b: Seq<u8>)
    ensures
        ({
            let (first, middle) = read_records(pending, a);
            let (second, rest) = read_records(middle, b);
            read_records(pending, a + b) == (first + second, rest)
        }),
    decreases b.len(),
{
    let (first, middle) = read_records(pending, a);
    if b.len() == 0 {
        assert(a + b =~= a);
        assert(first + Seq::<Report>::empty() =~= first);
    } else {
        reading_is_independent_of_chunking(pending, a, b.drop_last());
        assert((a + b).drop_last() =~= a + b.drop_last());
        let (second, rest) = read_records(middle, b.drop_last());
        let fields = split_fields(rest.push(b.last())).0;
        if fields.len() >= REPORT_FIELD_COUNT && record_report(fields) is Some {
            assert(first + second.push(record_report(fields)->0) =~= (first + second).push(
                record_report(fields)->0,
            ));
        }
    }
}

/// Whatever a record holds, once its nine fields are complete the next byte
/// starts a new record: a record never spoils the one after it.
pub proof fn reading_resynchronizes(record: Seq<u8>, next: Seq<u8>)
    requires
        record.len() > 0,
        split_fields(record).0.len() == REPORT_FIELD_COUNT,
        split_fields(record.drop_last()).0.len() < REPORT_FIELD_COUNT,
    ensures
        read_records(Seq::empty(), record).1 == Seq::<u8>::empty(),
        read_records(Seq::empty(), record + next).1 == read_records(Seq::empty(), next).1,
        read_records(Seq::empty(), record + next).0 == read_records(Seq::empty(), record).0
            + read_records(Seq::empty(), next).0,
{
    unfinished_records_accumulate(record.drop_last());
    assert(record.drop_last().push(record.last()) =~= record);
    reading_is_independent_of_chunking(Seq::empty(), record, next);
}

proof fn unfinished_records_accumulate(bytes: Seq<u8>)
    requires
        split_fields(bytes).0.len() < REPORT_FIELD_COUNT,
    ensures
        read_records(Seq::empty(), bytes) == (Seq::<Report>::empty(), bytes),
    decreases bytes.len(),
{
    if bytes.len() > 0 {
        unfinished_records_accumulate(bytes.drop_last());
        assert(bytes.drop_last().push(bytes.last()) =~= bytes);
    }
}

/// Shortest time between two deliveries, in milliseconds.
///
/// A reporting shell is untrusted. Coalescing and rate-limiting keeps a report
/// flood from contending with terminal output.
pub const REPORT_DELIVERY_INTERVAL_MS: u64 = 50;

/// A single-slot mailbox between the reader of reports and the session state.
///
/// Writers replace stale snapshots instead of building an unbounded backlog,
/// and the delivery side touches session state at a bounded rate.
pub struct ReportDispatcher {
    pending_report: Option<ShellReport>,
    stopped: bool,
    next_delivery_ms: u64,
}

/// What the delivery side does next.
pub enum Delivery {
    /// No report will come any more.
    Stop,
    /// Wait until a report is submitted or the mailbox is stopped.
    Wait,
    /// Wait as well, but no longer than this.
    WaitAtMost { milliseconds: u64 },
    /// Hand this report to the session.
    Deliver(ShellReport),
}

impl ReportDispatcher {
    pub closed spec fn pending(&self) -> Option<ShellReport> {
        self.pending_report
    }

    pub closed spec fn stopped(&self) -> bool {
        self.stopped
    }

    /// The earliest time of the next delivery.
    pub closed spec fn not_before(&self) -> u64 {
        self.next_delivery_ms
    }

    /// An empty mailbox whose first delivery may happen at `now_ms`.
    pub fn new(now_ms: u64) -> (dispatcher: Self)
        ensures
            dispatcher.pending() is None,
            !dispatcher.stopped(),
            dispatcher.not_before() == now_ms,
    {
        ReportDispatcher { pending_report: None, stopped: false, next_delivery_ms: now_ms }
    }

    /// Puts a report into the mailbox, in place of one that waits there.
    pub fn submit(&mut self, report: ShellReport)
        ensures
            old(self).stopped() ==> *final(self) == *old(self),
            !old(self).stopped() ==> final(self).pending() == Some(report),
            final(self).stopped() == old(self).stopped(),
            final(self).not_before() == old(self).not_before(),
    {
        if !self.stopped {
            self.pending_report = Some(report);
        }
    }

    /// Closes the mailbox and drops what waits in it.
    pub fn stop(&mut self)
        ensures
            final(self).stopped(),
            final(self).pending() is None,
            final(self).not_before() == old(self).not_before(),
    {
        self.stopped = true;
        self.pending_report = None;
    }

    /// Decides what the delivery side does at `now_ms`.
    pub fn poll(&mut self, now_ms: u64) -> (delivery: Delivery)
        ensures
            final(self).stopped() == old(self).stopped(),
            final(self).not_before() == old(self).not_before(),
            match delivery {
                Delivery::Stop => old(self).stopped() && *final(self) == *old(self),
                Delivery::Wait => !old(self).stopped() && old(self).pending() is None
                    && *final(self) == *old(self),
                Delivery::WaitAtMost { milliseconds } => {
                    &&& !old(self).stopped()
                    &&& old(self).pending() is Some
                    &&& now_ms < old(self).not_before()
                    &&& milliseconds == old(self).not_before() - now_ms
                    &&& *final(self) == *old(self)
                },
                Delivery::Deliver(report) => {
                    &&& !old(self).stopped()
                    &&& old(self).not_before() <= now_ms
                    &&& old(self).pending() == Some(report)
                    &&& final(self).pending() is None
                },
            },
    {
        if self.stopped {
            return Delivery::Stop;
        }
        if self.pending_report.is_none() {
            return Delivery::Wait;
        }
        if now_ms < self.next_delivery_ms {
            return Delivery::WaitAtMost { milliseconds: self.next_delivery_ms - now_ms };
        }
        match self.pending_report.take() {
            Some(report) => Delivery::Deliver(report),
            None => Delivery::Wait,
        }
    }

    /// Notes that the session has taken a delivered report at `now_ms`.
    pub fn delivered(&mut self, now_ms: u64)
        ensures
            final(self).pending() == old(self).pending(),
            final(self).stopped() == old(self).stopped(),
            final(self).not_before() == if now_ms > u64::MAX - REPORT_DELIVERY_INTERVAL_MS {
                u64::MAX
            } else {
                (now_ms + REPORT_DELIVERY_INTERVAL_MS) as u64
            },
    {
        self.next_delivery_ms = if now_ms > u64::MAX - REPORT_DELIVERY_INTERVAL_MS {
            u64::MAX
        } else {
            now_ms + REPORT_DELIVERY_INTERVAL_MS
        };
    }
}

/// Whether a word names something that a shell can report.
pub open spec fn names_capability(word: Seq<char>) -> bool {
    word == "cwd"@ || word == "command_line"@ || word == "cursor"@ || word == "prompt_phase"@
        || word == "running_command"@
}

/// A shell announces exactly what its list names: every word names something
/// that can be reported, and none stands twice.
pub proof fn capabilities_are_those_listed(words: Seq<Seq<char>>)
    ensures
        with_capabilities(words) is Some <==> words.no_duplicates() && forall|i: int|
            0 <= i < words.len() ==> names_capability(#[trigger] words[i]),
        with_capabilities(words) matches Some(capabilities) ==> {
            &&& capabilities.reports_cwd == words.contains("cwd"@)
            &&& capabilities.reports_command_line == words.contains("command_line"@)
            &&& capabilities.reports_cursor == words.contains("cursor"@)
            &&& capabilities.reports_prompt_phase == words.contains("prompt_phase"@)
            &&& capabilities.reports_running_command == words.contains("running_command"@)
        },
    decreases words.len(),
{
    if words.len() > 0 {
        let head = words.drop_last();
        let last = words.last();
        capabilities_are_those_listed(head);
        assert(head.push(last) =~= words);
        crate::layout::push_contains(head, last, "cwd"@);
        crate::layout::push_contains(head, last, "command_line"@);
        crate::layout::push_contains(head, last, "cursor"@);
        crate::layout::push_contains(head, last, "prompt_phase"@);
        crate::layout::push_contains(head, last, "running_command"@);
        capability_names_differ();
        assert(words.no_duplicates() <==> head.no_duplicates() && !head.contains(last)) by {
            if words.no_duplicates() {
                assert forall|i: int, j: int|
                    0 <= i < head.len() && 0 <= j < head.len() && i != j implies head[i]
                    != head[j] by {
                    assert(words[i] == head[i] && words[j] == head[j]);
                }
                if head.contains(last) {
                    let i = choose|i: int| 0 <= i < head.len() && head[i] == last;
                    assert(words[i] == words[words.len() - 1]);
                }
            }
            if head.no_duplicates() && !head.contains(last) {
                assert forall|i: int, j: int|
                    0 <= i < words.len() && 0 <= j < words.len() && i != j implies words[i]
                    != words[j] by {
                    if i < head.len() && j < head.len() {
                        assert(words[i] == head[i] && words[j] == head[j]);
                    } else if i < head.len() {
                        assert(words[i] == head[i]);
                    } else {
                        assert(words[j] == head[j]);
                    }
                }
            }
        }
        assert((forall|i: int| 0 <= i < words.len() ==> names_capability(#[trigger] words[i]))
            <==> (forall|i: int| 0 <= i < head.len() ==> names_capability(#[trigger] head[i]))
            && names_capability(last)) by {
            if forall|i: int| 0 <= i < words.len() ==> names_capability(#[trigger] words[i]) {
                assert forall|i: int| 0 <= i < head.len() implies names_capability(
                    #[trigger] head[i],
                ) by {
                    assert(words[i] == head[i]);
                }
                assert(names_capability(words[words.len() - 1]));
            }
            if (forall|i: int| 0 <= i < head.len() ==> names_capability(#[trigger] head[i]))
                && names_capability(last) {
                assert forall|i: int| 0 <= i < words.len() implies names_capability(
                    #[trigger] words[i],
                ) by {
                    if i < head.len() {
                        assert(words[i] == head[i]);
                    }
                }
            }
        }
    }
}

proof fn capability_names_differ()
    ensures
        "cwd"@ != "command_line"@,
        "cwd"@ != "cursor"@,
        "cwd"@ != "prompt_phase"@,
        "cwd"@ != "running_command"@,
        "command_line"@ != "cursor"@,
        "command_line"@ != "prompt_phase"@,
        "command_line"@ != "running_command"@,
        "cursor"@ != "prompt_phase"@,
        "cursor"@ != "running_command"@,
        "prompt_phase"@ != "running_command"@,
{
    reveal_strlit("cwd");
    reveal_strlit("command_line");
    reveal_strlit("cursor");
    reveal_strlit("prompt_phase");
    reveal_strlit("running_command");
    assert("cwd"@.len() == 3 && "cursor"@.len() == 6 && "running_command"@.len() == 15);
    assert("command_line"@.len() == 12 && "prompt_phase"@.len() == 12);
    assert("command_line"@[0] != "prompt_phase"@[0]);
}

/// Texts with a comma between each two.
pub open spec fn comma_separated(words: Seq<Seq<char>>) -> Seq<char>
    decreases words.len(),
{
    if words.len() == 0 {
        Seq::empty()
    } else if words.len() == 1 {
        words[0]
    } else {
        comma_separated(words.drop_last()) + seq![','] + words.last()
    }
}

/// The words of a list give the list back, and none of them holds a comma.
pub proof fn words_make_the_list(text: Seq<char>)
    ensures
        comma_words(text).len() > 0,
        comma_separated(comma_words(text)) == text,
        forall|i: int|
            0 <= i < comma_words(text).len() ==> !(#[trigger] comma_words(text)[i]).contains(','),
    decreases text.len(),
{
    let words = comma_words(text);
    if text.len() == 0 {
        assert(comma_separated(words) =~= text);
    } else {
        let head = text.drop_last();
        let before = comma_words(head);
        words_make_the_list(head);
        assert(head.push(text.last()) =~= text);
        if text.last() == ',' {
            assert(words.drop_last() =~= before);
            assert(comma_separated(before) + seq![','] + Seq::<char>::empty() =~= text);
            assert forall|i: int| 0 <= i < words.len() implies !(#[trigger] words[i]).contains(
                ',',
            ) by {
                if i < before.len() {
                    assert(words[i] == before[i]);
                }
            }
        } else {
            assert(words.drop_last() =~= before.drop_last());
            assert(words.last() == before.last().push(text.last()));
            if before.len() == 1 {
                assert(comma_separated(before) == before[0]);
                assert(comma_separated(words) == words[0]);
            } else {
                assert(comma_separated(words) =~= (comma_separated(before.drop_last()) + seq![',']
                    + before.last()).push(text.last()));
            }
            assert forall|i: int| 0 <= i < words.len() implies !(#[trigger] words[i]).contains(
                ',',
            ) by {
                if i < before.len() - 1 {
                    assert(words[i] == before[i]);
                } else {
                    let word = before.last();
                    let longer = word.push(text.last());
                    assert(!before[before.len() - 1].contains(','));
                    if longer.contains(',') {
                        let k = choose|k: int| 0 <= k < longer.len() && longer[k] == ',';
                        assert(k < word.len());
                        assert(word[k] == ',');
                    }
                }
            }
        }
    }
}

/// Fields as they are written: a NUL after each.
pub open spec fn terminated(fields: Seq<Seq<u8>>) -> Seq<u8>
    decreases fields.len(),
{
    if fields.len() == 0 {
        Seq::empty()
    } else {
        (terminated(fields.drop_last()) + fields.last()).push(0)
    }
}

proof fn text_extends_the_field(bytes: Seq<u8>, text: Seq<u8>)
    requires
        !text.contains(0),
    ensures
        split_fields(bytes + text) == (split_fields(bytes).0, split_fields(bytes).1 + text),
    decreases text.len(),
{
    let field = split_fields(bytes).1;
    if text.len() == 0 {
        assert(bytes + text =~= bytes);
        assert(field + text =~= field);
    } else {
        let head = text.drop_last();
        if head.contains(0) {
            let i = choose|i: int| 0 <= i < head.len() && head[i] == 0;
            assert(text[i] == 0);
        }
        text_extends_the_field(bytes, head);
        assert(text[text.len() - 1] != 0);
        assert((bytes + text).drop_last() =~= bytes + head);
        assert((field + head).push(text.last()) =~= field + text);
    }
}

/// The fields that were written are those that are read.
pub proof fn written_fields_are_read(fields: Seq<Seq<u8>>)
    requires
        forall|i: int| 0 <= i < fields.len() ==> !(#[trigger] fields[i]).contains(0),
    ensures
        split_fields(terminated(fields)) == (fields, Seq::<u8>::empty()),
    decreases fields.len(),
{
    if fields.len() > 0 {
        let head = fields.drop_last();
        assert forall|i: int| 0 <= i < head.len() implies !(#[trigger] head[i]).contains(0) by {
            assert(fields[i] == head[i]);
        }
        written_fields_are_read(head);
        assert(!fields[fields.len() - 1].contains(0));
        text_extends_the_field(terminated(head), fields.last());
        let unended = terminated(head) + fields.last();
        assert(unended.push(0).drop_last() =~= unended);
        assert(Seq::<u8>::empty() + fields.last() =~= fields.last());
        assert(head.push(fields.last()) =~= fields);
    }
}

/// A record that was written whole is read whole: it gives the one report that
/// its fields make, or none, and leaves nothing behind.
pub proof fn a_written_record_is_read(fields: Seq<Seq<u8>>)
    requires
        fields.len() == REPORT_FIELD_COUNT,
        forall|i: int| 0 <= i < fields.len() ==> !(#[trigger] fields[i]).contains(0),
    ensures
        read_records(Seq::empty(), terminated(fields)) == (match record_report(fields) {
            Some(report) => seq![report],
            None => Seq::<Report>::empty(),
        }, Seq::<u8>::empty()),
{
    let head = fields.drop_last();
    assert forall|i: int| 0 <= i < head.len() implies !(#[trigger] head[i]).contains(0) by {
        assert(fields[i] == head[i]);
    }
    written_fields_are_read(fields);
    written_fields_are_read(head);
    assert(!fields[fields.len() - 1].contains(0));
    text_extends_the_field(terminated(head), fields.last());
    let record = terminated(fields);
    let unended = terminated(head) + fields.last();
    assert(record.drop_last() =~= unended);
    unfinished_records_accumulate(unended);
    assert(unended.push(0) =~= record);
    assert(Seq::<Report>::empty().push(record_report(fields)->0) =~= seq![
        record_report(fields)->0,
    ]);
}

/// A report says what its record says, and no more than its shell announced: a
/// line only where one is edited, a command only while it runs and only if it
/// is a safe summary.
pub proof fn a_report_says_what_its_record_says(fields: Seq<Seq<u8>>, report: Report)
    requires
        report_of(fields) == Some(report),
    ensures
        ({
            let second = decode_utf8(fields[0]) == REPORT_MAGIC_V2@;
            let cwd = decode_utf8(fields[4]);
            let present = decode_utf8(fields[6]);
            let text = decode_utf8(fields[7]);
            let cursor = decode_utf8(fields[8]);
            let able = report.shell.capabilities;
            &&& fields.len() == REPORT_FIELD_COUNT
            &&& second || decode_utf8(fields[0]) == REPORT_MAGIC_V1@
            &&& shell_named(decode_utf8(fields[1])) == Some(report.shell.shell_type)
            &&& report.shell.integration_version is None <==> decode_utf8(fields[2]).len() == 0
            &&& phase_named(decode_utf8(fields[5])) == Some(report.phase)
            &&& report.cwd == if cwd.len() == 0 {
                None
            } else {
                Some(cwd)
            }
            &&& report.cwd is Some ==> able.reports_cwd
            &&& report.phase != PromptPhase::Unknown ==> able.reports_prompt_phase
            &&& report.line matches Some(line) ==> {
                &&& able.reports_command_line
                &&& line.text == text
                &&& line.cursor is None <==> cursor.len() == 0
                &&& line.cursor matches Some(offset) ==> able.reports_cursor && offset
                    <= text.len()
                &&& present == "1"@
                &&& second ==> report.phase == PromptPhase::AtPrompt || report.phase
                    == PromptPhase::Editing
            }
            &&& report.running matches Some(command) ==> {
                &&& second && report.phase == PromptPhase::Running
                &&& able.reports_running_command
                &&& command == text && valid_running_command(text)
                &&& present == "1"@
            }
            &&& present == "1"@ && (!second || report.phase == PromptPhase::AtPrompt || report.phase
                == PromptPhase::Editing) ==> report.line is Some
            &&& present == "1"@ && second && report.phase == PromptPhase::Running
                && valid_running_command(text) ==> report.running is Some
        }),
{
    reveal_strlit("0");
    reveal_strlit("1");
    assert("0"@[0] != "1"@[0]);
}

/// Each kind of shell and each phase is named by one word.
pub proof fn each_name_stands_for_one_thing(name: Seq<char>)
    ensures
        shell_named(name) == Some(ShellType::Bash) <==> name == "bash"@,
        shell_named(name) == Some(ShellType::Fish) <==> name == "fish"@,
        shell_named(name) == Some(ShellType::Pwsh) <==> name == "pwsh"@,
        shell_named(name) == Some(ShellType::Zsh) <==> name == "zsh"@,
        shell_named(name) == Some(ShellType::Cmd) <==> name == "cmd"@,
        shell_named(name) == Some(ShellType::Sh) <==> name == "sh"@,
        shell_named(name) == Some(ShellType::Unknown) <==> name == "unknown"@,
        phase_named(name) == Some(PromptPhase::Unknown) <==> name == "unknown"@,
        phase_named(name) == Some(PromptPhase::AtPrompt) <==> name == "at_prompt"@,
        phase_named(name) == Some(PromptPhase::Editing) <==> name == "editing"@,
        phase_named(name) == Some(PromptPhase::Running) <==> name == "running"@,
{
    reveal_strlit("bash");
    reveal_strlit("fish");
    reveal_strlit("pwsh");
    reveal_strlit("zsh");
    reveal_strlit("cmd");
    reveal_strlit("sh");
    reveal_strlit("unknown");
    reveal_strlit("at_prompt");
    reveal_strlit("editing");
    reveal_strlit("running");
    assert("bash"@[0] != "fish"@[0] && "bash"@[0] != "pwsh"@[0] && "fish"@[0] != "pwsh"@[0]);
    assert("zsh"@[0] != "cmd"@[0]);
    assert("unknown"@[0] != "editing"@[0] && "unknown"@[0] != "running"@[0] && "editing"@[0]
        != "running"@[0]);
}

/// A record is read exactly when each of its fields and the whole of it keep
/// their limits; the limits themselves are allowed.
pub proof fn records_within_the_limits_are_read(fields: Seq<Seq<u8>>)
    ensures
        total_bytes(fields) <= 16_384 && (forall|i: int|
            0 <= i < fields.len() ==> (#[trigger] fields[i]).len() <= 4_096) ==> record_report(
            fields,
        ) == report_of(fields),
        total_bytes(fields) > 16_384 ==> record_report(fields) is None,
        forall|i: int|
            0 <= i < fields.len() && (#[trigger] fields[i]).len() > 4_096 ==> record_report(
                fields,
            ) is None,
{
}

/// Whether a report can be written down: each thing in it was announced and
/// belongs to its phase.
pub open spec fn can_be_written(report: Report) -> bool {
    let able = report.shell.capabilities;
    &&& report.cwd matches Some(cwd) ==> cwd.len() > 0 && able.reports_cwd
    &&& report.phase == PromptPhase::Unknown || able.reports_prompt_phase
    &&& report.line matches Some(line) ==> {
        &&& report.phase == PromptPhase::AtPrompt || report.phase == PromptPhase::Editing
        &&& able.reports_command_line
        &&& encode_utf8(line.text).len() <= 4_096
        &&& line.cursor matches Some(offset) ==> able.reports_cursor && offset <= line.text.len()
            && offset <= u32::MAX
    }
    &&& report.running matches Some(command) ==> {
        &&& report.phase == PromptPhase::Running
        &&& able.reports_running_command
        &&& valid_running_command(command)
    }
}

/// The texts of a record of the second format. The names of the shell and of
/// the phase, and the list of what the shell can report, are given.
pub open spec fn record_texts(
    report: Report,
    shell: Seq<char>,
    list: Seq<char>,
    phase: Seq<char>,
) -> Seq<Seq<char>> {
    seq![
        REPORT_MAGIC_V2@,
        shell,
        match report.shell.integration_version {
            Some(version) => decimal(version as nat),
            None => Seq::empty(),
        },
        list,
        match report.cwd {
            Some(cwd) => cwd,
            None => Seq::empty(),
        },
        phase,
        if report.line is Some || report.running is Some {
            "1"@
        } else {
            "0"@
        },
        match (report.line, report.running) {
            (Some(line), _) => line.text,
            (None, Some(command)) => command,
            (None, None) => Seq::empty(),
        },
        match report.line {
            Some(Line { cursor: Some(offset), .. }) => decimal(offset),
            _ => Seq::empty(),
        },
    ]
}

/// A report that was written down is read back whole.
pub proof fn a_written_report_is_read_back(
    report: Report,
    shell: Seq<char>,
    list: Seq<char>,
    phase: Seq<char>,
)
    requires
        can_be_written(report),
        shell_named(shell) == Some(report.shell.shell_type),
        capabilities_listed(list) == Some(report.shell.capabilities),
        phase_named(phase) == Some(report.phase),
    ensures
        report_of(
            record_texts(report, shell, list, phase).map_values(
                |text: Seq<char>| encode_utf8(text),
            ),
        ) == Some(report),
{
    let words = record_texts(report, shell, list, phase);
    let fields = words.map_values(|text: Seq<char>| encode_utf8(text));
    assert forall|i: int| 0 <= i < words.len() implies valid_utf8(#[trigger] fields[i])
        && decode_utf8(fields[i]) == words[i] by {
        vstd::utf8::encode_utf8_valid_utf8(words[i]);
        vstd::utf8::encode_utf8_decode_utf8(words[i]);
    }
    reveal_strlit("0");
    reveal_strlit("1");
    assert("0"@[0] != "1"@[0]);
    assert(decode_utf8(fields[0]) == words[0] && decode_utf8(fields[1]) == words[1]);
    assert(decode_utf8(fields[2]) == words[2] && decode_utf8(fields[3]) == words[3]);
    assert(decode_utf8(fields[4]) == words[4] && decode_utf8(fields[5]) == words[5]);
    assert(decode_utf8(fields[6]) == words[6] && decode_utf8(fields[7]) == words[7]);
    assert(decode_utf8(fields[8]) == words[8]);
    if let Some(version) = report.shell.integration_version {
        decimals_are_read_back(version as nat, u16::MAX as nat);
        decimal_has_digits(version as nat);
    }
    if let Some(line) = report.line {
        if let Some(offset) = line.cursor {
            decimals_are_read_back(offset, u32::MAX as nat);
            decimal_has_digits(offset);
        }
    }
    let read = report_of(fields);
    assert(read is Some);
    assert(read->0.shell == report.shell);
    assert(read->0.line == report.line);
}

proof fn decimal_has_digits(n: nat)
    ensures
        decimal(n).len() > 0,
    decreases n,
{
    reveal_strlit("0");
    reveal_strlit("1");
    reveal_strlit("2");
    reveal_strlit("3");
    reveal_strlit("4");
    reveal_strlit("5");
    reveal_strlit("6");
    reveal_strlit("7");
    reveal_strlit("8");
    reveal_strlit("9");
    if n >= 10 {
        decimal_has_digits(n / 10);
    }
}

} // verus!
