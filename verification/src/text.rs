//! Small verified operations on text and byte strings.
use vstd::prelude::*;
use vstd::string::*;
use vstd::utf8::{
    decode_utf8, encode_utf8, is_ascii_chars, is_ascii_chars_encode_utf8, valid_utf8,
};

verus! {

/// The character that writes one decimal digit.
pub open spec fn digit(n: nat) -> Seq<char> {
    if n == 0 {
        "0"@
    } else if n == 1 {
        "1"@
    } else if n == 2 {
        "2"@
    } else if n == 3 {
        "3"@
    } else if n == 4 {
        "4"@
    } else if n == 5 {
        "5"@
    } else if n == 6 {
        "6"@
    } else if n == 7 {
        "7"@
    } else if n == 8 {
        "8"@
    } else {
        "9"@
    }
}

/// The decimal text of a natural number, without leading zeros.
pub open spec fn decimal(n: nat) -> Seq<char>
    decreases n,
{
    if n < 10 {
        digit(n)
    } else {
        decimal(n / 10) + digit(n % 10)
    }
}

/// Writes a number in decimal.
pub fn decimal_text(n: u64) -> (text: String)
    ensures
        text@ == decimal(n as nat),
    decreases n,
{
    let last: u64 = n % 10;
    let glyph = if last == 0 {
        "0"
    } else if last == 1 {
        "1"
    } else if last == 2 {
        "2"
    } else if last == 3 {
        "3"
    } else if last == 4 {
        "4"
    } else if last == 5 {
        "5"
    } else if last == 6 {
        "6"
    } else if last == 7 {
        "7"
    } else if last == 8 {
        "8"
    } else {
        "9"
    };
    if n < 10 {
        glyph.to_owned()
    } else {
        let mut text = decimal_text(n / 10);
        text.append(glyph);
        text
    }
}

/// Two texts with the same UTF-8 encoding are the same text.
pub proof fn encoding_is_injective(a: Seq<char>, b: Seq<char>)
    requires
        encode_utf8(a) == encode_utf8(b),
    ensures
        a == b,
{
    vstd::utf8::encode_utf8_decode_utf8(a);
    vstd::utf8::encode_utf8_decode_utf8(b);
}

/// Compares two byte strings.
pub fn same_bytes(a: &[u8], b: &[u8]) -> (same: bool)
    ensures
        same == (a@ == b@),
{
    if a.len() != b.len() {
        return false;
    }
    let mut index: usize = 0;
    while index < a.len()
        invariant
            index <= a.len(),
            a@.len() == b@.len(),
            forall|i: int| 0 <= i < index ==> a@[i] == b@[i],
        decreases a.len() - index,
    {
        if a[index] != b[index] {
            return false;
        }
        index += 1;
    }
    assert(a@ =~= b@);
    true
}

/// Compares two texts.
pub fn same_text(a: &str, b: &str) -> (same: bool)
    ensures
        same == (a@ == b@),
{
    let same = same_bytes(a.as_bytes(), b.as_bytes());
    proof {
        if same {
            encoding_is_injective(a@, b@);
        }
    }
    same
}

/// An optional text seen as an optional character sequence.
pub open spec fn optional(text: Option<String>) -> Option<Seq<char>> {
    match text {
        Some(text) => Some(text@),
        None => None,
    }
}

/// Whether an optional text is present and equal to `other`.
pub fn is_text(text: &Option<String>, other: &str) -> (same: bool)
    ensures
        same == (optional(*text) == Some(other@)),
{
    match text {
        Some(text) => same_text(text.as_str(), other),
        None => false,
    }
}

/// Compares two optional texts.
pub fn same_optional_text(a: &Option<String>, b: &Option<String>) -> (same: bool)
    ensures
        same == (optional(*a) == optional(*b)),
{
    match (a, b) {
        (Some(a), Some(b)) => same_text(a.as_str(), b.as_str()),
        (None, None) => true,
        _ => false,
    }
}

/// The text that bytes encode, if they are valid UTF-8.
pub open spec fn decoded(bytes: Seq<u8>) -> Option<Seq<char>> {
    if valid_utf8(bytes) {
        Some(decode_utf8(bytes))
    } else {
        None
    }
}

/// Reads bytes as text.
///
/// Calls `std::str::from_utf8`, which succeeds exactly on valid UTF-8 and then
/// gives the text that the bytes encode.
#[verifier::external_body]
pub(crate) fn decoded_text(bytes: &[u8]) -> (text: Option<String>)
    ensures
        optional(text) == decoded(bytes@),
{
    std::str::from_utf8(bytes).ok().map(str::to_owned)
}

/// The characters of a text.
pub fn chars_of(text: &str) -> (chars: Vec<char>)
    ensures
        chars@ == text@,
{
    let mut chars: Vec<char> = Vec::new();
    for c in it: text.chars()
        invariant
            it.seq() == text@,
            chars@ == text@.take(it.index() as int),
    {
        chars.push(c);
        assert(text@.take(it.index() + 1) =~= text@.take(it.index() as int).push(c));
    }
    assert(text@.take(text@.len() as int) =~= text@);
    chars
}

/// Whether a range of characters spells `word`.
pub fn spells(chars: &Vec<char>, from: usize, to: usize, word: &str) -> (same: bool)
    requires
        from <= to <= chars@.len(),
    ensures
        same == (chars@.subrange(from as int, to as int) == word@),
{
    let ghost part = chars@.subrange(from as int, to as int);
    let word_chars = chars_of(word);
    if word_chars.len() != to - from {
        return false;
    }
    let mut index: usize = 0;
    while index < word_chars.len()
        invariant
            from <= to <= chars@.len(),
            part == chars@.subrange(from as int, to as int),
            part.len() == word_chars@.len(),
            word_chars@ == word@,
            index <= word_chars@.len(),
            forall|i: int| 0 <= i < index ==> part[i] == word_chars@[i],
        decreases word_chars@.len() - index,
    {
        if chars[from + index] != word_chars[index] {
            assert(part[index as int] != word@[index as int]);
            return false;
        }
        index += 1;
    }
    assert(part =~= word@);
    true
}

/// The value of a run of ASCII digits, or nothing when another byte is in it.
pub open spec fn digits_value(bytes: Seq<u8>) -> Option<nat>
    decreases bytes.len(),
{
    if bytes.len() == 0 {
        Some(0)
    } else {
        match digits_value(bytes.drop_last()) {
            Some(value) => if 0x30 <= bytes.last() <= 0x39 {
                Some(value * 10 + (bytes.last() - 0x30) as nat)
            } else {
                None
            },
            None => None,
        }
    }
}

/// What follows the plus sign with which a number may begin.
pub open spec fn after_sign(bytes: Seq<u8>) -> Seq<u8> {
    if bytes.len() > 0 && bytes[0] == 0x2b {
        bytes.skip(1)
    } else {
        bytes
    }
}

/// The unsigned number that bytes write in ASCII decimal, if they write one of
/// at most `max`. One leading plus sign is accepted.
pub open spec fn number_in(bytes: Seq<u8>, max: nat) -> Option<nat> {
    let digits = after_sign(bytes);
    match digits_value(digits) {
        Some(value) => if digits.len() > 0 && value <= max {
            Some(value)
        } else {
            None
        },
        None => None,
    }
}

/// The unsigned number that a text writes in decimal.
pub open spec fn parsed_number(text: Seq<char>, max: nat) -> Option<nat> {
    number_in(encode_utf8(text), max)
}

proof fn digits_prefix(bytes: Seq<u8>, n: int)
    requires
        0 <= n <= bytes.len(),
    ensures
        digits_value(bytes.take(n)) is None ==> digits_value(bytes) is None,
        digits_value(bytes) is Some ==> digits_value(bytes.take(n)) is Some && digits_value(
            bytes.take(n),
        )->0 <= digits_value(bytes)->0,
    decreases bytes.len(),
{
    if n == bytes.len() {
        assert(bytes.take(n) =~= bytes);
    } else {
        digits_prefix(bytes.drop_last(), n);
        assert(bytes.drop_last().take(n) =~= bytes.take(n));
    }
}

/// Reads an unsigned decimal number of at most `max`.
pub fn parse_number(text: &str, max: u64) -> (number: Option<u64>)
    ensures
        match number {
            Some(value) => value <= max && parsed_number(text@, max as nat) == Some(value as nat),
            None => parsed_number(text@, max as nat) is None,
        },
{
    let bytes = text.as_bytes();
    read_number(bytes, 0, bytes.len(), max)
}

/// Reads the unsigned decimal number between two positions.
pub fn read_number(bytes: &[u8], from: usize, to: usize, max: u64) -> (number: Option<u64>)
    requires
        from <= to <= bytes@.len(),
    ensures
        match number {
            Some(value) => value <= max && number_in(
                bytes@.subrange(from as int, to as int),
                max as nat,
            ) == Some(value as nat),
            None => number_in(bytes@.subrange(from as int, to as int), max as nat) is None,
        },
        from == 0 && to == bytes@.len() ==> bytes@.subrange(from as int, to as int) == bytes@,
{
    let ghost part = bytes@.subrange(from as int, to as int);
    assert(from == 0 && to == bytes@.len() ==> part =~= bytes@);
    let start: usize = if from < to && bytes[from] == 0x2b {
        from + 1
    } else {
        from
    };
    let ghost digits = if start == from {
        part
    } else {
        part.skip(1)
    };
    if start == to {
        return None;
    }
    let mut value: u64 = 0;
    let mut index: usize = start;
    assert(digits.take(0) =~= Seq::empty());
    while index < to
        invariant
            from <= start < to <= bytes@.len(),
            start <= index <= to,
            part == bytes@.subrange(from as int, to as int),
            digits.len() == to - start,
            forall|i: int| 0 <= i < digits.len() ==> digits[i] == bytes@[start + i],
            number_in(part, max as nat) == match digits_value(digits) {
                Some(value) => if digits.len() > 0 && value <= max {
                    Some(value)
                } else {
                    None
                },
                None => None,
            },
            value <= max,
            digits_value(digits.take(index - start)) == Some(value as nat),
        decreases to - index,
    {
        let byte: u8 = bytes[index];
        proof {
            let taken = digits.take(index - start + 1);
            assert(taken.drop_last() =~= digits.take(index - start));
            assert(taken.last() == byte);
            digits_prefix(digits, index - start + 1);
        }
        if byte < 0x30 || byte > 0x39 {
            return None;
        }
        let digit_value: u64 = (byte - 0x30) as u64;
        if digit_value > max || value > (max - digit_value) / 10 {
            return None;
        }
        value = value * 10 + digit_value;
        index += 1;
    }
    assert(digits.take(index - start) =~= digits);
    Some(value)
}

/// What keeps a text from being a number.
#[derive(Debug, Clone, Copy, PartialEq, Eq, Structural)]
pub enum NumberProblem {
    Empty,
    InvalidDigit,
    TooLarge,
}

impl NumberProblem {
    /// The problem in words.
    pub open spec fn text(self) -> Seq<char> {
        match self {
            NumberProblem::Empty => "cannot parse integer from empty string"@,
            NumberProblem::InvalidDigit => "invalid digit found in string"@,
            NumberProblem::TooLarge => "number too large to fit in target type"@,
        }
    }

    pub fn message(&self) -> (message: &'static str)
        ensures
            message@ == self.text(),
    {
        match self {
            NumberProblem::Empty => "cannot parse integer from empty string",
            NumberProblem::InvalidDigit => "invalid digit found in string",
            NumberProblem::TooLarge => "number too large to fit in target type",
        }
    }
}

/// The first thing wrong with a run of digits, read from the left.
pub open spec fn digits_problem(digits: Seq<u8>, max: nat) -> Option<NumberProblem>
    decreases digits.len(),
{
    if digits.len() == 0 {
        None
    } else {
        match digits_problem(digits.drop_last(), max) {
            Some(problem) => Some(problem),
            None => if !(0x30 <= digits.last() <= 0x39) {
                Some(NumberProblem::InvalidDigit)
            } else if digits_value(digits) matches Some(value) && value > max {
                Some(NumberProblem::TooLarge)
            } else {
                None
            },
        }
    }
}

/// What keeps bytes from being a number of at most `max`, if anything.
pub open spec fn number_problem(bytes: Seq<u8>, max: nat) -> Option<NumberProblem> {
    if bytes.len() == 0 {
        Some(NumberProblem::Empty)
    } else if after_sign(bytes).len() == 0 {
        Some(NumberProblem::InvalidDigit)
    } else {
        digits_problem(after_sign(bytes), max)
    }
}

proof fn sound_digits_have_a_value(digits: Seq<u8>, max: nat)
    ensures
        digits_problem(digits, max) is None <==> digits_value(digits) is Some && digits_value(
            digits,
        )->0 <= max,
    decreases digits.len(),
{
    if digits.len() > 0 {
        sound_digits_have_a_value(digits.drop_last(), max);
    }
}

/// Bytes are a number exactly when nothing keeps them from being one.
pub proof fn a_number_has_no_problem(bytes: Seq<u8>, max: nat)
    ensures
        number_in(bytes, max) is Some <==> number_problem(bytes, max) is None,
{
    sound_digits_have_a_value(after_sign(bytes), max);
}

proof fn an_early_problem_stays(digits: Seq<u8>, max: nat, n: int)
    requires
        0 <= n <= digits.len(),
        digits_problem(digits.take(n), max) is Some,
    ensures
        digits_problem(digits, max) == digits_problem(digits.take(n), max),
    decreases digits.len(),
{
    if n == digits.len() {
        assert(digits.take(n) =~= digits);
    } else {
        assert(digits.drop_last().take(n) =~= digits.take(n));
        an_early_problem_stays(digits.drop_last(), max, n);
    }
}

/// Says what keeps a text from being an unsigned decimal number of at most
/// `max`, if anything.
pub fn find_number_problem(text: &str, max: u64) -> (problem: Option<NumberProblem>)
    ensures
        problem == number_problem(encode_utf8(text@), max as nat),
{
    let bytes = text.as_bytes();
    if bytes.len() == 0 {
        return Some(NumberProblem::Empty);
    }
    let start: usize = if bytes[0] == 0x2b {
        1
    } else {
        0
    };
    let ghost digits = after_sign(bytes@);
    if start == bytes.len() {
        return Some(NumberProblem::InvalidDigit);
    }
    let mut value: u64 = 0;
    let mut index: usize = start;
    assert(digits.take(0) =~= Seq::empty());
    while index < bytes.len()
        invariant
            start <= index <= bytes@.len(),
            digits.len() == bytes@.len() - start,
            forall|i: int| 0 <= i < digits.len() ==> digits[i] == bytes@[start + i],
            number_problem(encode_utf8(text@), max as nat) == digits_problem(digits, max as nat),
            value <= max,
            digits_value(digits.take(index - start)) == Some(value as nat),
            digits_problem(digits.take(index - start), max as nat) is None,
        decreases bytes@.len() - index,
    {
        let byte: u8 = bytes[index];
        let ghost taken = digits.take(index - start + 1);
        proof {
            assert(taken.drop_last() =~= digits.take(index - start));
            assert(taken.last() == byte);
        }
        if byte < 0x30 || byte > 0x39 {
            proof {
                an_early_problem_stays(digits, max as nat, index - start + 1);
            }
            return Some(NumberProblem::InvalidDigit);
        }
        let digit_value: u64 = (byte - 0x30) as u64;
        if digit_value > max || value > (max - digit_value) / 10 {
            proof {
                an_early_problem_stays(digits, max as nat, index - start + 1);
            }
            return Some(NumberProblem::TooLarge);
        }
        value = value * 10 + digit_value;
        index += 1;
    }
    assert(digits.take(index - start) =~= digits);
    None
}

/// The texts that a list of strings holds.
pub open spec fn texts(list: Seq<String>) -> Seq<Seq<char>> {
    list.map_values(|text: String| text@)
}

/// Compares two lists of texts.
pub fn same_texts(a: &Vec<String>, b: &Vec<String>) -> (same: bool)
    ensures
        same == (texts(a@) == texts(b@)),
{
    if a.len() != b.len() {
        assert(texts(a@).len() != texts(b@).len());
        return false;
    }
    let mut index: usize = 0;
    while index < a.len()
        invariant
            index <= a@.len(),
            a@.len() == b@.len(),
            forall|i: int| 0 <= i < index ==> a@[i]@ == b@[i]@,
        decreases a@.len() - index,
    {
        if !same_text(a[index].as_str(), b[index].as_str()) {
            assert(texts(a@)[index as int] != texts(b@)[index as int]);
            return false;
        }
        index += 1;
    }
    assert(texts(a@) =~= texts(b@));
    true
}

/// Whether `text` ends with `ending`.
pub open spec fn has_ending(text: Seq<char>, ending: Seq<char>) -> bool {
    ending.len() <= text.len() && text.skip(text.len() - ending.len()) == ending
}

/// Whether a text ends with another.
pub fn ends_with(text: &str, ending: &str) -> (found: bool)
    ensures
        found == has_ending(text@, ending@),
{
    let chars = chars_of(text);
    let count: usize = chars_of(ending).len();
    if count > chars.len() {
        return false;
    }
    let from: usize = chars.len() - count;
    assert(chars@.subrange(from as int, chars@.len() as int) =~= text@.skip(
        text@.len() - ending@.len(),
    ));
    spells(&chars, from, chars.len(), ending)
}

/// Bytes split at a separator: one part more than there are separators.
pub open spec fn split_at_byte(bytes: Seq<u8>, separator: u8) -> Seq<Seq<u8>>
    decreases bytes.len(),
{
    if bytes.len() == 0 {
        seq![Seq::empty()]
    } else {
        let parts = split_at_byte(bytes.drop_last(), separator);
        if bytes.last() == separator {
            parts.push(Seq::empty())
        } else {
            parts.update(parts.len() - 1, parts.last().push(bytes.last()))
        }
    }
}

/// Appends one character to a text.
///
/// States `String::push`: the text grows by exactly that character.
pub assume_specification[ String::push ](text: &mut String, c: char)
    ensures
        final(text)@ == old(text)@.push(c),
;

/// How a duration of whole milliseconds is written in messages.
pub uninterp spec fn duration_words(milliseconds: u64) -> Seq<char>;

/// Writes a duration of whole milliseconds.
///
/// Calls `std::time::Duration::from_millis` and writes the duration in its
/// `Debug` form, which depends on the duration alone.
#[verifier::external_body]
pub(crate) fn duration_text(milliseconds: u64) -> (text: String)
    ensures
        text@ == duration_words(milliseconds),
{
    format!("{:?}", std::time::Duration::from_millis(milliseconds))
}

/// A text between two others.
pub fn between(before: &str, middle: &str, after: &str) -> (text: String)
    ensures
        text@ == before@ + middle@ + after@,
{
    let mut text = before.to_owned();
    text.append(middle);
    text.append(after);
    text
}

/// A text after another.
pub fn prefixed(before: &str, text: &str) -> (whole: String)
    ensures
        whole@ == before@ + text@,
{
    let mut whole = before.to_owned();
    whole.append(text);
    whole
}

/// How an exit code is written in messages.
pub open spec fn exit_words(exit_code: Option<u32>) -> Seq<char> {
    match exit_code {
        Some(code) => "Some("@ + decimal(code as nat) + ")"@,
        None => "None"@,
    }
}

/// Writes an exit code, if there is one.
pub fn exit_text(exit_code: Option<u32>) -> (text: String)
    ensures
        text@ == exit_words(exit_code),
{
    match exit_code {
        Some(code) => between("Some(", decimal_text(code as u64).as_str(), ")"),
        None => "None".to_owned(),
    }
}

/// The bytes of a decimal text are its digits, and they stand for the number.
proof fn decimal_bytes(n: nat)
    ensures
        is_ascii_chars(decimal(n)),
        encode_utf8(decimal(n)).len() == decimal(n).len() > 0,
        forall|i: int|
            0 <= i < decimal(n).len() ==> 0x30 <= #[trigger] encode_utf8(decimal(n))[i] <= 0x39,
        digits_value(encode_utf8(decimal(n))) == Some(n),
    decreases n,
{
    reveal_strlit("0");
    reveal_strlit("1");
    reveal_strlit("2");
    reveal_strlit("3");
    reveal_strlit("4");
    reveal_strlit("5");
    reveal_strlit("6");
    reveal_strlit("7");
    reveal_strlit("8");
    reveal_strlit("9");
    let text = decimal(n);
    let last = digit(n % 10);
    assert(last.len() == 1 && last[0] as int == 0x30 + n % 10);
    if n < 10 {
        assert(text == last);
        is_ascii_chars_encode_utf8(text);
        let bytes = encode_utf8(text);
        assert(bytes.drop_last() =~= Seq::empty());
        assert(digits_value(bytes.drop_last()) == Some(0nat));
    } else {
        let head = decimal(n / 10);
        decimal_bytes(n / 10);
        is_ascii_chars_encode_utf8(head);
        assert(is_ascii_chars(text)) by {
            assert forall|i: int| 0 <= i < text.len() implies (#[trigger] text[i]) as nat
                <= 0x7f by {
                if i < head.len() {
                    assert(text[i] == head[i]);
                } else {
                    assert(text[i] == last[0]);
                }
            }
        }
        is_ascii_chars_encode_utf8(text);
        let bytes = encode_utf8(text);
        assert(bytes.drop_last() =~= encode_utf8(head));
        assert(text.last() == last[0]);
    }
}

/// A number that was written in decimal is read back.
pub proof fn decimals_are_read_back(n: nat, max: nat)
    requires
        n <= max,
    ensures
        parsed_number(decimal(n), max) == Some(n),
{
    decimal_bytes(n);
    let bytes = encode_utf8(decimal(n));
    assert(0x30 <= bytes[0] <= 0x39);
}

/// Parts with a separator between each two.
pub open spec fn joined(parts: Seq<Seq<u8>>, separator: u8) -> Seq<u8>
    decreases parts.len(),
{
    if parts.len() == 0 {
        Seq::empty()
    } else if parts.len() == 1 {
        parts[0]
    } else {
        joined(parts.drop_last(), separator).push(separator) + parts.last()
    }
}

/// The parts of a split give the bytes back, and none of them holds a
/// separator.
pub proof fn parts_make_the_whole(bytes: Seq<u8>, separator: u8)
    ensures
        split_at_byte(bytes, separator).len() > 0,
        joined(split_at_byte(bytes, separator), separator) == bytes,
        forall|i: int|
            0 <= i < split_at_byte(bytes, separator).len() ==> !(#[trigger] split_at_byte(
                bytes,
                separator,
            )[i]).contains(separator),
    decreases bytes.len(),
{
    let parts = split_at_byte(bytes, separator);
    if bytes.len() == 0 {
        assert(joined(parts, separator) =~= bytes);
    } else {
        let head = bytes.drop_last();
        let before = split_at_byte(head, separator);
        parts_make_the_whole(head, separator);
        assert(head.push(bytes.last()) =~= bytes);
        if bytes.last() == separator {
            assert(parts.drop_last() =~= before);
            assert(joined(before, separator).push(separator) + Seq::<u8>::empty() =~= bytes);
            assert forall|i: int| 0 <= i < parts.len() implies !(#[trigger] parts[i]).contains(
                separator,
            ) by {
                if i < before.len() {
                    assert(parts[i] == before[i]);
                }
            }
        } else {
            assert(parts.drop_last() =~= before.drop_last());
            assert(parts.last() == before.last().push(bytes.last()));
            if before.len() > 1 {
                assert(joined(parts, separator) =~= (joined(before.drop_last(), separator).push(
                    separator,
                ) + before.last()).push(bytes.last()));
            }
            assert forall|i: int| 0 <= i < parts.len() implies !(#[trigger] parts[i]).contains(
                separator,
            ) by {
                if i < before.len() - 1 {
                    assert(parts[i] == before[i]);
                } else {
                    let part = before.last();
                    let longer = part.push(bytes.last());
                    assert(!before[before.len() - 1].contains(separator));
                    if longer.contains(separator) {
                        let k = choose|k: int| 0 <= k < longer.len() && longer[k] == separator;
                        assert(k < part.len());
                        assert(part[k] == separator);
                    }
                }
            }
        }
    }
}

} // verus!
