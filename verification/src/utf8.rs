//! Incremental decoding of a byte stream as UTF-8.
//!
//! Malformed input is replaced piece by piece, and the bytes of a character
//! that is not complete yet are kept for later.
use vstd::prelude::*;
use vstd::utf8::{
    decode_first_scalar, decode_utf8, encode_utf8, is_continuation_byte, length_of_first_scalar,
    pop_first_scalar, valid_first_scalar, valid_utf8,
};

verus! {

/// How many bytes the character takes that a byte begins; none if no character
/// begins with it.
pub open spec fn width(lead: u8) -> int {
    if lead <= 0x7f {
        1
    } else if 0xc2 <= lead <= 0xdf {
        2
    } else if 0xe0 <= lead <= 0xef {
        3
    } else if 0xf0 <= lead <= 0xf4 {
        4
    } else {
        0
    }
}

/// Whether a second byte can follow a first one.
pub open spec fn second_fits(lead: u8, second: u8) -> bool {
    if lead == 0xe0 {
        0xa0 <= second <= 0xbf
    } else if lead == 0xed {
        0x80 <= second <= 0x9f
    } else if lead == 0xf0 {
        0x90 <= second <= 0xbf
    } else if lead == 0xf4 {
        0x80 <= second <= 0x8f
    } else {
        0x80 <= second <= 0xbf
    }
}

/// How many of the first bytes belong to one beginning of a character: all
/// bytes that can follow one another, up to the character's width.
pub open spec fn fitting(bytes: Seq<u8>) -> int {
    let wide = width(bytes[0]);
    if wide <= 1 || bytes.len() < 2 || !second_fits(bytes[0], bytes[1]) {
        1
    } else if wide == 2 || bytes.len() < 3 || !is_continuation_byte(bytes[2]) {
        2
    } else if wide == 3 || bytes.len() < 4 || !is_continuation_byte(bytes[3]) {
        3
    } else {
        4
    }
}

/// Bytes begin with a whole character exactly when as many fit together as
/// its first byte asks for.
proof fn whole_first_character(bytes: Seq<u8>)
    requires
        bytes.len() > 0,
    ensures
        valid_first_scalar(bytes) <==> fitting(bytes) == width(bytes[0]),
        valid_first_scalar(bytes) ==> length_of_first_scalar(bytes) == width(bytes[0]),
{
    let a = bytes[0];
    assert(a <= 0x7f ==> (a & 0x7f) as u32 <= 0x7f) by (bit_vector);
    if bytes.len() >= 2 {
        let b = bytes[1];
        assert(0xc0 <= a <= 0xdf && 0x80 <= b <= 0xbf ==> {
            let point = (((a & 0x1f) as u32) << 6) | ((b & 0x3f) as u32);
            &&& (point >= 0x80 <==> a >= 0xc2)
            &&& point < 0x800
        }) by (bit_vector);
        if bytes.len() >= 3 {
            let c = bytes[2];
            assert(0xe0 <= a <= 0xef && 0x80 <= b <= 0xbf && 0x80 <= c <= 0xbf ==> {
                let point = (((a & 0x0f) as u32) << 12) | (((b & 0x3f) as u32) << 6) | ((c
                    & 0x3f) as u32);
                (point >= 0x800 && !(0xd800 <= point <= 0xdfff)) <==> (if a == 0xe0 {
                    0xa0 <= b
                } else if a == 0xed {
                    b <= 0x9f
                } else {
                    true
                })
            }) by (bit_vector);
            if bytes.len() >= 4 {
                let d = bytes[3];
                assert(0xf0 <= a <= 0xf7 && 0x80 <= b <= 0xbf && 0x80 <= c <= 0xbf && 0x80 <= d
                    <= 0xbf ==> {
                    let point = (((a & 0x07) as u32) << 18) | (((b & 0x3f) as u32) << 12) | (((c
                        & 0x3f) as u32) << 6) | ((d & 0x3f) as u32);
                    (0x10000 <= point <= 0x10ffff) <==> (a <= 0xf4 && (if a == 0xf0 {
                        0x90 <= b
                    } else if a == 0xf4 {
                        b <= 0x8f
                    } else {
                        true
                    }))
                }) by (bit_vector);
            }
        }
    }
}

/// The length of the longest prefix that is made of whole characters.
pub open spec fn valid_prefix(bytes: Seq<u8>) -> int
    decreases bytes.len(),
{
    if bytes.len() == 0 || !valid_first_scalar(bytes) {
        0
    } else {
        length_of_first_scalar(bytes) + valid_prefix(pop_first_scalar(bytes))
    }
}

/// What stands after the longest prefix of whole characters: nothing, the
/// beginning of a character, or bytes that can never become one.
pub open spec fn malformed(bytes: Seq<u8>) -> Option<int> {
    if bytes.len() == 0 || (width(bytes[0]) > 0 && fitting(bytes) == bytes.len()) {
        None
    } else {
        Some(fitting(bytes))
    }
}

proof fn valid_prefix_facts(bytes: Seq<u8>)
    ensures
        0 <= valid_prefix(bytes) <= bytes.len(),
        valid_utf8(bytes.take(valid_prefix(bytes))),
        valid_utf8(bytes) <==> valid_prefix(bytes) == bytes.len(),
        valid_prefix(bytes) < bytes.len() ==> !valid_first_scalar(
            bytes.skip(valid_prefix(bytes)),
        ),
    decreases bytes.len(),
{
    if bytes.len() == 0 || !valid_first_scalar(bytes) {
        assert(bytes.take(0) =~= Seq::empty());
        assert(bytes.skip(0) =~= bytes);
    } else {
        whole_first_character(bytes);
        let first = length_of_first_scalar(bytes);
        let rest = pop_first_scalar(bytes);
        let more = valid_prefix(rest);
        valid_prefix_facts(rest);
        let taken = bytes.take(first + more);
        whole_first_character(taken);
        assert(pop_first_scalar(taken) =~= rest.take(more));
        assert(rest.skip(more) =~= bytes.skip(first + more));
    }
}

fn width_of(lead: u8) -> (wide: usize)
    ensures
        wide == width(lead),
{
    if lead <= 0x7f {
        1
    } else if 0xc2 <= lead && lead <= 0xdf {
        2
    } else if 0xe0 <= lead && lead <= 0xef {
        3
    } else if 0xf0 <= lead && lead <= 0xf4 {
        4
    } else {
        0
    }
}

fn second_byte_fits(lead: u8, second: u8) -> (fits: bool)
    ensures
        fits == second_fits(lead, second),
{
    if lead == 0xe0 {
        0xa0 <= second && second <= 0xbf
    } else if lead == 0xed {
        0x80 <= second && second <= 0x9f
    } else if lead == 0xf0 {
        0x90 <= second && second <= 0xbf
    } else if lead == 0xf4 {
        0x80 <= second && second <= 0x8f
    } else {
        0x80 <= second && second <= 0xbf
    }
}

/// How many bytes from `from` on fit together.
fn fitting_bytes(bytes: &[u8], from: usize) -> (count: usize)
    requires
        from < bytes@.len(),
    ensures
        count == fitting(bytes@.skip(from as int)),
        1 <= count <= bytes@.len() - from,
        count <= 4,
{
    let left: usize = bytes.len() - from;
    let wide: usize = width_of(bytes[from]);
    if wide <= 1 || left < 2 || !second_byte_fits(bytes[from], bytes[from + 1]) {
        1
    } else if wide == 2 || left < 3 || bytes[from + 2] < 0x80 || bytes[from + 2] > 0xbf {
        2
    } else if wide == 3 || left < 4 || bytes[from + 3] < 0x80 || bytes[from + 3] > 0xbf {
        3
    } else {
        4
    }
}

/// How far bytes are made of whole characters.
pub fn valid_up_to(bytes: &[u8]) -> (count: usize)
    ensures
        count == valid_prefix(bytes@),
        count <= bytes@.len(),
        valid_utf8(bytes@.take(count as int)),
        count == bytes@.len() <==> valid_utf8(bytes@),
        count < bytes@.len() ==> !valid_first_scalar(bytes@.skip(count as int)),
{
    let mut count: usize = 0;
    assert(bytes@.skip(0) =~= bytes@);
    while count < bytes.len()
        invariant
            count <= bytes@.len(),
            valid_prefix(bytes@) == count + valid_prefix(bytes@.skip(count as int)),
        decreases bytes@.len() - count,
    {
        let fits: usize = fitting_bytes(bytes, count);
        let ghost rest = bytes@.skip(count as int);
        proof {
            whole_first_character(rest);
            valid_prefix_facts(bytes@);
            if valid_first_scalar(rest) {
                assert(pop_first_scalar(rest) =~= bytes@.skip(count + fits));
            }
        }
        if fits != width_of(bytes[count]) {
            return count;
        }
        count += fits;
    }
    proof {
        valid_prefix_facts(bytes@);
    }
    count
}

/// How many bytes at the front can never become a character; nothing when they
/// may be the beginning of one.
pub fn malformed_length(bytes: &[u8]) -> (length: Option<usize>)
    requires
        bytes@.len() > 0,
    ensures
        match length {
            Some(count) => malformed(bytes@) == Some(count as int) && 1 <= count <= bytes@.len(),
            None => malformed(bytes@) is None && bytes@.len() < 5,
        },
{
    assert(bytes@.skip(0) =~= bytes@);
    let fits: usize = fitting_bytes(bytes, 0);
    if width_of(bytes[0]) > 0 && fits == bytes.len() {
        None
    } else {
        Some(fits)
    }
}

/// A piece of decoded input.
pub enum Run {
    /// Well-formed text.
    Text { text: Seq<char> },
    /// One replacement character for malformed bytes.
    Replacement,
}

/// The runs that bytes decode to, and the bytes kept for later.
pub open spec fn decoded_runs(bytes: Seq<u8>) -> (Seq<Run>, Seq<u8>)
    decreases bytes.len(),
{
    let valid = valid_prefix(bytes);
    if valid == bytes.len() {
        (seq![Run::Text { text: decode_utf8(bytes) }], Seq::empty())
    } else if 0 < valid < bytes.len() {
        let (runs, rest) = decoded_runs(bytes.skip(valid));
        (seq![Run::Text { text: decode_utf8(bytes.take(valid)) }] + runs, rest)
    } else {
        match malformed(bytes) {
            Some(length) => if 0 < length <= bytes.len() {
                let (runs, rest) = decoded_runs(bytes.skip(length));
                (seq![Run::Replacement] + runs, rest)
            } else {
                (Seq::empty(), bytes)
            },
            None => (Seq::empty(), bytes),
        }
    }
}

/// At most three bytes wait for the rest of their character.
pub proof fn little_is_kept_for_later(bytes: Seq<u8>)
    ensures
        decoded_runs(bytes).1.len() <= 3,
        valid_utf8(bytes) ==> decoded_runs(bytes).1.len() == 0,
    decreases bytes.len(),
{
    valid_prefix_facts(bytes);
    let valid = valid_prefix(bytes);
    if valid == bytes.len() {
    } else if valid > 0 {
        little_is_kept_for_later(bytes.skip(valid));
    } else {
        whole_first_character(bytes);
        match malformed(bytes) {
            Some(length) => {
                little_is_kept_for_later(bytes.skip(length));
            },
            None => {},
        }
    }
}

/// The text of decoded runs, with a replacement character for each malformed
/// piece.
pub open spec fn text_of_runs(runs: Seq<Run>) -> Seq<char>
    decreases runs.len(),
{
    if runs.len() == 0 {
        Seq::empty()
    } else {
        let first = match runs[0] {
            Run::Text { text } => text,
            Run::Replacement => seq!['\u{fffd}'],
        };
        first + text_of_runs(runs.skip(1))
    }
}

/// Bytes decoded one character at a time: the text, and the bytes kept for
/// later.
spec fn one_by_one(bytes: Seq<u8>) -> (Seq<char>, Seq<u8>)
    decreases bytes.len(),
{
    if bytes.len() == 0 {
        (Seq::empty(), Seq::empty())
    } else if valid_first_scalar(bytes) {
        let (text, rest) = one_by_one(pop_first_scalar(bytes));
        (seq![decode_first_scalar(bytes) as char] + text, rest)
    } else {
        match malformed(bytes) {
            Some(length) => if 0 < length <= bytes.len() {
                let (text, rest) = one_by_one(bytes.skip(length));
                (seq!['\u{fffd}'] + text, rest)
            } else {
                (Seq::empty(), bytes)
            },
            None => (Seq::empty(), bytes),
        }
    }
}

/// Whole characters at the front are decoded before what follows them.
proof fn whole_characters_come_first(bytes: Seq<u8>)
    ensures
        one_by_one(bytes).0 == decode_utf8(bytes.take(valid_prefix(bytes))) + one_by_one(
            bytes.skip(valid_prefix(bytes)),
        ).0,
        one_by_one(bytes).1 == one_by_one(bytes.skip(valid_prefix(bytes))).1,
    decreases bytes.len(),
{
    valid_prefix_facts(bytes);
    let valid = valid_prefix(bytes);
    if bytes.len() == 0 || !valid_first_scalar(bytes) {
        assert(bytes.take(0) =~= Seq::empty());
        assert(bytes.skip(0) =~= bytes);
    } else {
        whole_first_character(bytes);
        let first = length_of_first_scalar(bytes);
        let rest = pop_first_scalar(bytes);
        let more = valid_prefix(rest);
        whole_characters_come_first(rest);
        valid_prefix_facts(rest);
        let taken = bytes.take(valid);
        whole_first_character(taken);
        assert(pop_first_scalar(taken) =~= rest.take(more));
        assert(rest.skip(more) =~= bytes.skip(valid));
    }
}

/// Decoding in runs gives the text that decoding one by one gives.
proof fn runs_hold_the_text(bytes: Seq<u8>)
    ensures
        text_of_runs(decoded_runs(bytes).0) == one_by_one(bytes).0,
        decoded_runs(bytes).1 == one_by_one(bytes).1,
    decreases bytes.len(),
{
    valid_prefix_facts(bytes);
    let valid = valid_prefix(bytes);
    let runs = decoded_runs(bytes).0;
    if valid == bytes.len() {
        whole_characters_come_first(bytes);
        assert(bytes.take(valid) =~= bytes);
        assert(bytes.skip(valid) =~= Seq::empty());
        assert(runs.skip(1) =~= Seq::empty());
        assert(text_of_runs(Seq::empty()) == Seq::<char>::empty());
        assert(text_of_runs(runs) =~= decode_utf8(bytes));
    } else if valid > 0 {
        let rest = bytes.skip(valid);
        whole_characters_come_first(bytes);
        runs_hold_the_text(rest);
        assert(runs.skip(1) =~= decoded_runs(rest).0);
    } else {
        whole_first_character(bytes);
        match malformed(bytes) {
            Some(length) => {
                let rest = bytes.skip(length);
                runs_hold_the_text(rest);
                assert(runs.skip(1) =~= decoded_runs(rest).0);
            },
            None => {},
        }
    }
}

/// More bytes change nothing about a character or a malformed piece that is
/// complete.
proof fn more_bytes_change_nothing(bytes: Seq<u8>, more: Seq<u8>)
    requires
        bytes.len() > 0,
        valid_first_scalar(bytes) || malformed(bytes) is Some,
    ensures
        valid_first_scalar(bytes + more) == valid_first_scalar(bytes),
        valid_first_scalar(bytes) ==> {
            &&& decode_first_scalar(bytes + more) == decode_first_scalar(bytes)
            &&& pop_first_scalar(bytes + more) == pop_first_scalar(bytes) + more
        },
        !valid_first_scalar(bytes) ==> {
            &&& malformed(bytes + more) == malformed(bytes)
            &&& 0 < malformed(bytes)->0 <= bytes.len()
            &&& (bytes + more).skip(malformed(bytes)->0) == bytes.skip(malformed(bytes)->0) + more
        },
{
    let all = bytes + more;
    whole_first_character(bytes);
    whole_first_character(all);
    assert(all[0] == bytes[0]);
    assert(forall|i: int| 0 <= i < bytes.len() ==> all[i] == bytes[i]);
    if valid_first_scalar(bytes) {
        assert(fitting(all) == width(bytes[0]));
        assert(pop_first_scalar(all) =~= pop_first_scalar(bytes) + more);
    } else {
        assert(fitting(all) == fitting(bytes));
        assert(all.skip(fitting(bytes)) =~= bytes.skip(fitting(bytes)) + more);
    }
}

proof fn kept_bytes_are_decoded_later(earlier: Seq<u8>, later: Seq<u8>)
    ensures
        one_by_one(earlier + later).0 == one_by_one(earlier).0 + one_by_one(
            one_by_one(earlier).1 + later,
        ).0,
        one_by_one(earlier + later).1 == one_by_one(one_by_one(earlier).1 + later).1,
    decreases earlier.len(),
{
    let all = earlier + later;
    if earlier.len() == 0 {
        assert(all =~= later);
        assert(one_by_one(earlier).1 + later =~= later);
    } else if valid_first_scalar(earlier) {
        whole_first_character(earlier);
        more_bytes_change_nothing(earlier, later);
        kept_bytes_are_decoded_later(pop_first_scalar(earlier), later);
    } else {
        whole_first_character(earlier);
        match malformed(earlier) {
            Some(length) => {
                more_bytes_change_nothing(earlier, later);
                kept_bytes_are_decoded_later(earlier.skip(length), later);
            },
            None => {},
        }
    }
}

/// How a stream is cut into chunks changes nothing about the text it decodes
/// to, nor about the bytes that are kept at its end.
pub proof fn decoding_is_independent_of_chunking(earlier: Seq<u8>, later: Seq<u8>)
    ensures
        ({
            let (first, kept) = decoded_runs(earlier);
            let (second, rest) = decoded_runs(kept + later);
            let (all, end) = decoded_runs(earlier + later);
            &&& text_of_runs(all) == text_of_runs(first) + text_of_runs(second)
            &&& end == rest
        }),
{
    runs_hold_the_text(earlier);
    runs_hold_the_text(earlier + later);
    runs_hold_the_text(decoded_runs(earlier).1 + later);
    kept_bytes_are_decoded_later(earlier, later);
}

/// Text is read as it was written, however it was encoded before: as itself,
/// whole, and with nothing kept for later.
pub proof fn text_is_read_as_it_is(text: Seq<char>)
    ensures
        decoded_runs(encode_utf8(text)) == (seq![Run::Text { text }], Seq::<u8>::empty()),
{
    vstd::utf8::encode_utf8_valid_utf8(text);
    vstd::utf8::encode_utf8_decode_utf8(text);
    valid_prefix_facts(encode_utf8(text));
}

/// A byte that begins no character, and one that is not followed as it has to
/// be, is read as one replacement character; reading goes on with the byte
/// after it.
pub proof fn a_stray_byte_is_replaced(byte: u8, rest: Seq<u8>)
    requires
        width(byte) == 0 || (width(byte) > 1 && rest.len() > 0 && !second_fits(byte, rest[0])),
    ensures
        text_of_runs(decoded_runs(seq![byte] + rest).0) == seq!['\u{fffd}'] + text_of_runs(
            decoded_runs(rest).0,
        ),
        decoded_runs(seq![byte] + rest).1 == decoded_runs(rest).1,
{
    let bytes = seq![byte] + rest;
    runs_hold_the_text(bytes);
    runs_hold_the_text(rest);
    whole_first_character(bytes);
    assert(bytes.skip(1) =~= rest);
    assert(fitting(bytes) == 1);
}

} // verus!
