//! Session names: which are valid, which are taken, and which come next.
use vstd::prelude::*;
use vstd::string::*;
use vstd::utf8::encode_utf8;

use crate::layout::push_contains;
use crate::text::{decimal, decimal_text, digit, same_text, texts};

verus! {

/// A byte that may stand in a session name.
pub open spec fn name_byte(byte: u8) -> bool {
    ||| 0x30 <= byte <= 0x39
    ||| 0x41 <= byte <= 0x5a
    ||| 0x61 <= byte <= 0x7a
    ||| byte == 0x2d
    ||| byte == 0x5f
    ||| byte == 0x2e
}

/// What is wrong with a session name, if anything.
pub open spec fn name_problem(name: Seq<char>) -> Option<Seq<char>> {
    let bytes = encode_utf8(name);
    if bytes.len() == 0 || bytes.len() > 64 {
        Some("session names must contain between 1 and 64 bytes"@)
    } else if forall|i: int| 0 <= i < bytes.len() ==> name_byte(#[trigger] bytes[i]) {
        None
    } else {
        Some("session names may contain only ASCII letters, digits, '-', '_', and '.'"@)
    }
}

/// Validates a session name for display and safe lookup.
///
/// Refuses a name that is empty, too long, or contains a byte outside the
/// allowed portable character set, with a description.
pub fn validate_session_name(name: &str) -> (result: Result<(), &'static str>)
    ensures
        match result {
            Ok(_) => name_problem(name@) is None,
            Err(message) => name_problem(name@) == Some(message@),
        },
{
    let bytes = name.as_bytes();
    if bytes.len() == 0 || bytes.len() > 64 {
        return Err("session names must contain between 1 and 64 bytes");
    }
    let mut index: usize = 0;
    while index < bytes.len()
        invariant
            index <= bytes@.len(),
            bytes@ == encode_utf8(name@),
            0 < bytes@.len() <= 64,
            forall|i: int| 0 <= i < index ==> name_byte(#[trigger] bytes@[i]),
        decreases bytes@.len() - index,
    {
        let byte: u8 = bytes[index];
        let allowed = (0x30 <= byte && byte <= 0x39) || (0x41 <= byte && byte <= 0x5a) || (0x61
            <= byte && byte <= 0x7a) || byte == 0x2d || byte == 0x5f || byte == 0x2e;
        if !allowed {
            assert(!name_byte(bytes@[index as int]));
            return Err(
                "session names may contain only ASCII letters, digits, '-', '_', and '.'",
            );
        }
        index += 1;
    }
    Ok(())
}

/// Why a name could not be reserved.
#[derive(Debug, PartialEq, Eq)]
pub enum NameError {
    Invalid { message: String },
    AlreadyExists { name: String },
    AutomaticNameExhausted,
}

/// Whether a list of strings holds a text.
pub fn holds_text(list: &Vec<String>, text: &str) -> (found: bool)
    ensures
        found == texts(list@).contains(text@),
{
    let mut index: usize = 0;
    while index < list.len()
        invariant
            index <= list@.len(),
            forall|i: int| 0 <= i < index ==> texts(list@)[i] != text@,
        decreases list@.len() - index,
    {
        assert(texts(list@)[index as int] == list@[index as int]@);
        if same_text(list[index].as_str(), text) {
            return true;
        }
        index += 1;
    }
    false
}

/// The name of the `number`th automatically named session.
pub open spec fn automatic_name(number: nat) -> Seq<char> {
    "session-"@ + decimal(number)
}

/// The first number from `from` on whose automatic name is free.
pub open spec fn next_free(from: nat, number: nat, taken: Seq<Seq<char>>) -> bool {
    &&& from <= number
    &&& !taken.contains(automatic_name(number))
    &&& forall|n: nat| from <= n < number ==> taken.contains(#[trigger] automatic_name(n))
}

/// Whether a name is the one to give out: the requested one if it is valid and
/// free, or else the next free automatic one. `after` is the number of the next
/// automatic name from then on.
pub open spec fn name_given(
    taken: Set<Seq<char>>,
    next: Option<u64>,
    requested: Option<String>,
    name: Seq<char>,
    after: Option<u64>,
) -> bool {
    &&& !taken.contains(name)
    &&& match requested {
        Some(requested) => name == requested@ && name_problem(name) is None && after == next,
        None => next is Some && exists|number: u64|
            {
                &&& name == #[trigger] automatic_name(number as nat)
                &&& next->0 <= number
                &&& forall|n: nat|
                    next->0 <= n < number ==> taken.contains(#[trigger] automatic_name(n))
                &&& after == if number == u64::MAX {
                    None
                } else {
                    Some((number + 1) as u64)
                }
            },
    }
}

/// Whether there is no automatic name left to give out.
pub open spec fn names_exhausted(taken: Set<Seq<char>>, next: Option<u64>) -> bool {
    next matches Some(next) ==> forall|n: nat|
        next <= n <= u64::MAX ==> taken.contains(#[trigger] automatic_name(n))
}

/// The names that are being given out, and the next automatic one.
#[derive(Debug)]
pub struct NameRegistry {
    pending_names: Vec<String>,
    next_automatic_name: Option<u64>,
}

/// The content of a [`NameRegistry`].
#[verifier::ext_equal]
pub struct Names {
    /// Names reserved for sessions that are being created.
    pub pending: Seq<Seq<char>>,
    /// The number of the next automatic name, unless all are used up.
    pub next: Option<u64>,
}

impl View for NameRegistry {
    type V = Names;

    closed spec fn view(&self) -> Names {
        Names { pending: texts(self.pending_names@), next: self.next_automatic_name }
    }
}

impl Default for NameRegistry {
    fn default() -> (registry: Self)
        ensures
            registry@ == (Names { pending: Seq::empty(), next: Some(1) }),
    {
        let registry = NameRegistry { pending_names: Vec::new(), next_automatic_name: Some(1) };
        assert(texts(registry.pending_names@) =~= Seq::empty());
        registry
    }
}

impl NameRegistry {
    /// A registry whose next automatic name has a given number.
    pub fn starting_at(next_automatic_name: Option<u64>) -> (registry: Self)
        ensures
            registry@ == (Names { pending: Seq::empty(), next: next_automatic_name }),
    {
        let registry = NameRegistry { pending_names: Vec::new(), next_automatic_name };
        assert(texts(registry.pending_names@) =~= Seq::empty());
        registry
    }

    /// Reserves a chosen name, which must be valid and neither reserved nor
    /// the name of a live session.
    pub fn acquire(&mut self, live: &Vec<String>, name: String) -> (result: Result<
        String,
        NameError,
    >)
        ensures
            match result {
                Ok(reserved) => {
                    &&& reserved@ == name@
                    &&& name_problem(name@) is None
                    &&& !old(self)@.pending.contains(name@)
                    &&& !texts(live@).contains(name@)
                    &&& final(self)@ == (Names {
                        pending: old(self)@.pending.push(name@),
                        ..old(self)@
                    })
                },
                Err(NameError::Invalid { message }) => name_problem(name@) == Some(message@)
                    && final(self)@ == old(self)@,
                Err(NameError::AlreadyExists { name: existing }) => {
                    &&& existing@ == name@
                    &&& name_problem(name@) is None
                    &&& old(self)@.pending.contains(name@) || texts(live@).contains(name@)
                    &&& final(self)@ == old(self)@
                },
                Err(NameError::AutomaticNameExhausted) => false,
            },
    {
        match validate_session_name(name.as_str()) {
            Ok(_) => {},
            Err(message) => {
                return Err(NameError::Invalid { message: message.to_owned() });
            },
        }
        if holds_text(&self.pending_names, name.as_str()) || holds_text(live, name.as_str()) {
            return Err(NameError::AlreadyExists { name });
        }
        let ghost before = self.pending_names@;
        self.pending_names.push(name.clone());
        assert(texts(self.pending_names@) =~= texts(before).push(name@));
        Ok(name)
    }

    /// Reserves the next automatic name. Numbers are never used twice, even
    /// when a name is given back.
    pub fn acquire_automatic(&mut self, live: &Vec<String>) -> (result: Result<String, NameError>)
        ensures
            ({
                let taken = old(self)@.pending + texts(live@);
                match result {
                    Ok(name) => {
                        &&& old(self)@.next is Some
                        &&& exists|number: u64|
                            {
                                &&& name@ == #[trigger] automatic_name(number as nat)
                                &&& next_free(old(self)@.next->0 as nat, number as nat, taken)
                                &&& final(self)@ == (Names {
                                    pending: old(self)@.pending.push(name@),
                                    next: if number == u64::MAX {
                                        None
                                    } else {
                                        Some((number + 1) as u64)
                                    },
                                })
                            }
                    },
                    Err(error) => {
                        &&& error == NameError::AutomaticNameExhausted
                        &&& final(self)@ == (Names { next: None, ..old(self)@ })
                        &&& old(self)@.next matches Some(next) ==> forall|n: nat|
                            next <= n <= u64::MAX ==> taken.contains(#[trigger] automatic_name(n))
                    },
                }
            }),
    {
        let ghost start = self@;
        let ghost taken = start.pending + texts(live@);
        let first: u64 = match self.next_automatic_name {
            Some(number) => number,
            None => {
                return Err(NameError::AutomaticNameExhausted);
            },
        };
        let mut number: u64 = first;
        loop
            invariant
                start == old(self)@,
                start.next == Some(first),
                first <= number,
                texts(self.pending_names@) == start.pending,
                taken == start.pending + texts(live@),
                forall|n: nat|
                    first <= n < number ==> taken.contains(#[trigger] automatic_name(n)),
            decreases u64::MAX - number,
        {
            let mut candidate = "session-".to_owned();
            candidate.append(decimal_text(number).as_str());
            assert(candidate@ == automatic_name(number as nat));
            let exists_already = holds_text(&self.pending_names, candidate.as_str())
                || holds_text(live, candidate.as_str());
            proof {
                contains_in_either(start.pending, texts(live@), candidate@);
            }
            self.next_automatic_name = if number == u64::MAX {
                None
            } else {
                Some(number + 1)
            };
            if !exists_already {
                let ghost before = self.pending_names@;
                self.pending_names.push(candidate.clone());
                assert(texts(self.pending_names@) =~= texts(before).push(candidate@));
                assert(next_free(first as nat, number as nat, taken));
                return Ok(candidate);
            }
            if number == u64::MAX {
                return Err(NameError::AutomaticNameExhausted);
            }
            number += 1;
        }
    }

    /// Whether a name is reserved.
    pub fn is_pending(&self, name: &str) -> (pending: bool)
        ensures
            pending == self@.pending.contains(name@),
    {
        holds_text(&self.pending_names, name)
    }

    /// Gives a reserved name back, or up to the session that now has it.
    pub fn release(&mut self, name: &str)
        ensures
            final(self)@.next == old(self)@.next,
            final(self)@.pending == without_text(old(self)@.pending, name@),
    {
        let ghost all = texts(self.pending_names@);
        let mut kept: Vec<String> = Vec::new();
        let mut index: usize = 0;
        assert(all.take(0) =~= Seq::empty());
        assert(texts(kept@) =~= Seq::empty());
        while index < self.pending_names.len()
            invariant
                index <= self.pending_names@.len(),
                all == texts(self.pending_names@),
                texts(kept@) == without_text(all.take(index as int), name@),
            decreases self.pending_names@.len() - index,
        {
            proof {
                let taken = all.take(index + 1);
                assert(taken.drop_last() =~= all.take(index as int));
                assert(taken.last() == self.pending_names@[index as int]@);
            }
            if !same_text(self.pending_names[index].as_str(), name) {
                let ghost before = kept@;
                kept.push(self.pending_names[index].clone());
                assert(texts(kept@) =~= texts(before).push(self.pending_names@[index as int]@));
            }
            index += 1;
        }
        assert(all.take(index as int) =~= all);
        self.pending_names = kept;
    }
}

/// A list of texts without one of them.
pub open spec fn without_text(list: Seq<Seq<char>>, text: Seq<char>) -> Seq<Seq<char>>
    decreases list.len(),
{
    if list.len() == 0 {
        Seq::empty()
    } else {
        let rest = without_text(list.drop_last(), text);
        if list.last() == text {
            rest
        } else {
            rest.push(list.last())
        }
    }
}

/// A text stands in two lists put together if it stands in either.
pub proof fn contains_in_either(a: Seq<Seq<char>>, b: Seq<Seq<char>>, text: Seq<char>)
    ensures
        (a + b).contains(text) == (a.contains(text) || b.contains(text)),
{
    if a.contains(text) {
        let i = choose|i: int| 0 <= i < a.len() && a[i] == text;
        assert((a + b)[i] == text);
    }
    if b.contains(text) {
        let i = choose|i: int| 0 <= i < b.len() && b[i] == text;
        assert((a + b)[a.len() + i] == text);
    }
    if (a + b).contains(text) {
        let i = choose|i: int| 0 <= i < (a + b).len() && (a + b)[i] == text;
        if i < a.len() {
            assert(a[i] == text);
        } else {
            assert(b[i - a.len()] == text);
        }
    }
}

/// What remains of a list without a text stood in it, and is another text.
pub proof fn remaining_texts(list: Seq<Seq<char>>, text: Seq<char>, other: Seq<char>)
    requires
        without_text(list, text).contains(other),
    ensures
        list.contains(other),
        other != text,
    decreases list.len(),
{
    if list.len() > 0 {
        let head = list.drop_last();
        let rest = without_text(head, text);
        assert(head.push(list.last()) =~= list);
        push_contains(head, list.last(), other);
        if list.last() != text {
            push_contains(rest, list.last(), other);
            if rest.contains(other) {
                remaining_texts(head, text, other);
            }
        } else {
            remaining_texts(head, text, other);
        }
    }
}

proof fn absent_text_stays_absent(list: Seq<Seq<char>>, text: Seq<char>)
    requires
        !list.contains(text),
    ensures
        without_text(list, text) == list,
    decreases list.len(),
{
    if list.len() > 0 {
        assert(list.last() != text);
        assert forall|i: int| 0 <= i < list.len() - 1 implies list.drop_last()[i] != text by {
            assert(list[i] != text);
        }
        absent_text_stays_absent(list.drop_last(), text);
        assert(list.drop_last().push(list.last()) =~= list);
    }
}

/// To reserve a free name and give it back leaves the reserved names as they
/// were.
pub proof fn reserving_and_releasing(pending: Seq<Seq<char>>, name: Seq<char>)
    requires
        !pending.contains(name),
    ensures
        without_text(pending.push(name), name) == pending,
{
    assert(pending.push(name).drop_last() =~= pending);
    absent_text_stays_absent(pending, name);
}

proof fn digit_character(n: nat)
    requires
        n < 10,
    ensures
        digit(n).len() == 1,
        digit(n)[0] as int == 0x30 + n,
{
    reveal_strlit("0");
    reveal_strlit("1");
    reveal_strlit("2");
    reveal_strlit("3");
    reveal_strlit("4");
    reveal_strlit("5");
    reveal_strlit("6");
    reveal_strlit("7");
    reveal_strlit("8");
    reveal_strlit("9");
    assert("0"@[0] == '0');
    assert("1"@[0] == '1');
    assert("2"@[0] == '2');
    assert("3"@[0] == '3');
    assert("4"@[0] == '4');
    assert("5"@[0] == '5');
    assert("6"@[0] == '6');
    assert("7"@[0] == '7');
    assert("8"@[0] == '8');
    assert("9"@[0] == '9');
}

proof fn digits_are_distinct(a: nat, b: nat)
    requires
        a < 10,
        b < 10,
        digit(a) == digit(b),
    ensures
        a == b,
{
    digit_character(a);
    digit_character(b);
}

proof fn decimal_is_not_empty(n: nat)
    ensures
        decimal(n).len() >= 1,
        n >= 10 ==> decimal(n).len() >= 2,
    decreases n,
{
    if n >= 10 {
        decimal_is_not_empty(n / 10);
        digit_character(n % 10);
    } else {
        digit_character(n);
    }
}

/// Different numbers are written differently.
pub proof fn decimal_is_injective(a: nat, b: nat)
    requires
        decimal(a) == decimal(b),
    ensures
        a == b,
    decreases a,
{
    decimal_is_not_empty(a);
    decimal_is_not_empty(b);
    if a < 10 {
        digit_character(a);
        if b >= 10 {
            assert(false);
        }
        digits_are_distinct(a, b);
    } else if b < 10 {
        digit_character(b);
        assert(false);
    } else {
        digit_character(a % 10);
        digit_character(b % 10);
        let x = decimal(a / 10);
        let y = decimal(b / 10);
        assert((x + digit(a % 10)).drop_last() =~= x);
        assert((y + digit(b % 10)).drop_last() =~= y);
        assert((x + digit(a % 10)).last() == digit(a % 10)[0]);
        assert((y + digit(b % 10)).last() == digit(b % 10)[0]);
        assert(digit(a % 10) =~= digit(b % 10));
        decimal_is_injective(a / 10, b / 10);
        digits_are_distinct(a % 10, b % 10);
    }
}

/// A later automatic name is never an earlier one, whatever happened to the
/// names in between.
pub proof fn automatic_names_never_repeat(earlier: nat, later: nat)
    requires
        earlier < later,
    ensures
        automatic_name(earlier) != automatic_name(later),
{
    if automatic_name(earlier) == automatic_name(later) {
        let prefix = "session-"@;
        assert((prefix + decimal(earlier)).skip(prefix.len() as int) =~= decimal(earlier));
        assert((prefix + decimal(later)).skip(prefix.len() as int) =~= decimal(later));
        decimal_is_injective(earlier, later);
    }
}

/// An automatic name is not given out again, however the taken names change:
/// the number of the next one only grows.
pub proof fn automatic_names_are_given_once(
    taken: Set<Seq<char>>,
    next: Option<u64>,
    first: Seq<char>,
    after: Option<u64>,
    taken_later: Set<Seq<char>>,
    later: Option<u64>,
    second: Seq<char>,
    end: Option<u64>,
)
    requires
        name_given(taken, next, None, first, after),
        later matches Some(number) ==> after is Some && after->0 <= number,
        name_given(taken_later, later, None, second, end),
    ensures
        first != second,
        end matches Some(number) ==> later->0 < number,
{
    let one = choose|number: u64|
        {
            &&& first == #[trigger] automatic_name(number as nat)
            &&& next->0 <= number
            &&& after == if number == u64::MAX {
                None
            } else {
                Some((number + 1) as u64)
            }
        };
    let two = choose|number: u64|
        {
            &&& second == #[trigger] automatic_name(number as nat)
            &&& later->0 <= number
            &&& end == if number == u64::MAX {
                None
            } else {
                Some((number + 1) as u64)
            }
        };
    automatic_names_never_repeat(one as nat, two as nat);
}

/// A name is in order if it has between 1 and 64 bytes, all of them ASCII
/// letters, digits or one of three marks, and not else.
pub proof fn names_are_short_and_plain(name: Seq<char>)
    ensures
        name_problem(name) is None <==> {
            &&& 1 <= encode_utf8(name).len() <= 64
            &&& forall|i: int|
                0 <= i < encode_utf8(name).len() ==> {
                    let byte = #[trigger] encode_utf8(name)[i];
                    ||| '0' as u8 <= byte <= '9' as u8
                    ||| 'A' as u8 <= byte <= 'Z' as u8
                    ||| 'a' as u8 <= byte <= 'z' as u8
                    ||| byte == '-' as u8 || byte == '_' as u8 || byte == '.' as u8
                }
        },
{
    let bytes = encode_utf8(name);
    if 1 <= bytes.len() <= 64 {
        if forall|i: int| 0 <= i < bytes.len() ==> name_byte(#[trigger] bytes[i]) {
            assert forall|i: int| 0 <= i < bytes.len() implies {
                let byte = #[trigger] bytes[i];
                ||| '0' as u8 <= byte <= '9' as u8
                ||| 'A' as u8 <= byte <= 'Z' as u8
                ||| 'a' as u8 <= byte <= 'z' as u8
                ||| byte == '-' as u8 || byte == '_' as u8 || byte == '.' as u8
            } by {
                assert(name_byte(bytes[i]));
            }
        }
    }
}

/// Releasing a name takes it out of the reserved ones and leaves every other.
pub proof fn releasing_frees_only_that_name(list: Seq<Seq<char>>, text: Seq<char>, other: Seq<char>)
    ensures
        !without_text(list, text).contains(text),
        other != text ==> (without_text(list, text).contains(other) <==> list.contains(other)),
    decreases list.len(),
{
    if list.len() > 0 {
        let head = list.drop_last();
        releasing_frees_only_that_name(head, text, other);
        assert(head.push(list.last()) =~= list);
        crate::layout::push_contains(head, list.last(), other);
        crate::layout::push_contains(without_text(head, text), list.last(), other);
        crate::layout::push_contains(without_text(head, text), list.last(), text);
    }
}

/// An automatic name is the first free one from the next number on; there is
/// none left exactly when every one from there on is taken.
pub proof fn an_automatic_name_is_the_first_free(
    taken: Set<Seq<char>>,
    next: u64,
    given: Seq<char>,
    after: Option<u64>,
    number: u64,
)
    requires
        next <= number,
        !taken.contains(automatic_name(number as nat)),
    ensures
        !names_exhausted(taken, Some(next)),
        name_given(taken, Some(next), None, given, after) ==> exists|chosen: u64|
            {
                &&& given == #[trigger] automatic_name(chosen as nat)
                &&& next <= chosen <= number
                &&& !taken.contains(given)
                &&& after matches Some(following) ==> chosen < following
            },
        names_exhausted(taken, None),
{
    assert(taken.contains(automatic_name(number as nat)) || !names_exhausted(taken, Some(next)));
    if name_given(taken, Some(next), None, given, after) {
        let chosen = choose|chosen: u64|
            {
                &&& given == #[trigger] automatic_name(chosen as nat)
                &&& next <= chosen
                &&& forall|n: nat|
                    next <= n < chosen ==> taken.contains(#[trigger] automatic_name(n))
                &&& after == if chosen == u64::MAX {
                    None
                } else {
                    Some((chosen + 1) as u64)
                }
            };
        assert(given == automatic_name(chosen as nat));
    }
}

} // verus!
