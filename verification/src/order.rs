//! The order of texts, and of records by their time.
use vstd::prelude::*;
use vstd::seq_lib::*;
use vstd::utf8::encode_utf8;

verus! {

/// Lexicographic order of byte strings.
pub open spec fn bytes_le(a: Seq<u8>, b: Seq<u8>) -> bool
    decreases a.len(),
{
    a.len() == 0 || (b.len() > 0 && (a[0] < b[0] || (a[0] == b[0] && bytes_le(
        a.skip(1),
        b.skip(1),
    ))))
}

/// The order of texts is that of their UTF-8 encodings.
pub open spec fn text_le(a: Seq<char>, b: Seq<char>) -> bool {
    bytes_le(encode_utf8(a), encode_utf8(b))
}

pub proof fn bytes_le_total(a: Seq<u8>, b: Seq<u8>)
    ensures
        bytes_le(a, b) || bytes_le(b, a),
    decreases a.len(),
{
    if a.len() > 0 && b.len() > 0 {
        bytes_le_total(a.skip(1), b.skip(1));
    }
}

pub proof fn bytes_le_transitive(a: Seq<u8>, b: Seq<u8>, c: Seq<u8>)
    requires
        bytes_le(a, b),
        bytes_le(b, c),
    ensures
        bytes_le(a, c),
    decreases a.len(),
{
    if a.len() > 0 && a[0] == b[0] && b[0] == c[0] {
        bytes_le_transitive(a.skip(1), b.skip(1), c.skip(1));
    }
}

/// Compares two texts.
pub fn text_not_after(a: &str, b: &str) -> (le: bool)
    ensures
        le == text_le(a@, b@),
{
    let x = a.as_bytes();
    let y = b.as_bytes();
    let mut index: usize = 0;
    assert(x@.skip(0) =~= x@);
    assert(y@.skip(0) =~= y@);
    while index < x.len()
        invariant
            index <= x@.len(),
            index <= y@.len(),
            x@ == encode_utf8(a@),
            y@ == encode_utf8(b@),
            bytes_le(x@, y@) == bytes_le(x@.skip(index as int), y@.skip(index as int)),
        decreases x@.len() - index,
    {
        if index >= y.len() {
            return false;
        }
        if x[index] < y[index] {
            return true;
        }
        if x[index] > y[index] {
            return false;
        }
        assert(x@.skip(index as int).skip(1) =~= x@.skip(index + 1));
        assert(y@.skip(index as int).skip(1) =~= y@.skip(index + 1));
        index += 1;
    }
    true
}

/// Whether items stand with the newest first.
pub open spec fn newest_first<T>(items: Seq<T>, time: spec_fn(T) -> u64) -> bool {
    forall|i: int, j: int|
        0 <= i < j < items.len() ==> time(#[trigger] items[i]) >= time(#[trigger] items[j])
}

/// Whether an item is of some time.
pub open spec fn is_of<T>(time: spec_fn(T) -> u64, moment: u64) -> spec_fn(T) -> bool {
    |item: T| time(item) == moment
}

/// The items of one time, in their order.
pub open spec fn of_time<T>(items: Seq<T>, time: spec_fn(T) -> u64, moment: u64) -> Seq<T> {
    items.filter(is_of(time, moment))
}

/// Whether two lists hold the same items, and those of one time in the same
/// order.
pub open spec fn same_by_time<T>(a: Seq<T>, b: Seq<T>, time: spec_fn(T) -> u64) -> bool {
    &&& a.to_multiset() == b.to_multiset()
    &&& forall|moment: u64| #[trigger] of_time(a, time, moment) == of_time(b, time, moment)
}

proof fn none_of_time<T>(items: Seq<T>, time: spec_fn(T) -> u64, moment: u64)
    requires
        forall|i: int| 0 <= i < items.len() ==> time(#[trigger] items[i]) != moment,
    ensures
        of_time(items, time, moment) == Seq::<T>::empty(),
    decreases items.len(),
{
    reveal(Seq::filter);
    if items.len() > 0 {
        none_of_time(items.drop_last(), time, moment);
    }
}

proof fn inserted_before_its_time<T>(
    items: Seq<T>,
    at: int,
    item: T,
    time: spec_fn(T) -> u64,
    moment: u64,
)
    requires
        0 <= at <= items.len(),
        forall|i: int| 0 <= i < at ==> time(#[trigger] items[i]) > time(item),
    ensures
        of_time(items.insert(at, item), time, moment) == of_time(
            seq![item] + items,
            time,
            moment,
        ),
{
    let front = items.take(at);
    let back = items.skip(at);
    let chosen = is_of(time, moment);
    assert(items =~= front + back);
    assert(items.insert(at, item) =~= front + (seq![item] + back));
    Seq::filter_distributes_over_add(front, seq![item] + back, chosen);
    Seq::filter_distributes_over_add(seq![item], back, chosen);
    Seq::filter_distributes_over_add(front, back, chosen);
    Seq::filter_distributes_over_add(seq![item], items, chosen);
    if moment == time(item) {
        none_of_time(front, time, moment);
    } else {
        none_of_time(seq![item], time, moment);
    }
}

/// To put an item before the first that is not newer keeps the newest first, and
/// is as good as to put it before all the items that it was among.
pub proof fn insertion_keeps_the_newest_first<T>(
    items: Seq<T>,
    at: int,
    item: T,
    others: Seq<T>,
    time: spec_fn(T) -> u64,
)
    requires
        0 <= at <= items.len(),
        newest_first(items, time),
        forall|i: int| 0 <= i < at ==> time(#[trigger] items[i]) > time(item),
        at < items.len() ==> time(items[at]) <= time(item),
        same_by_time(items, others, time),
    ensures
        newest_first(items.insert(at, item), time),
        same_by_time(items.insert(at, item), seq![item] + others, time),
{
    let after = items.insert(at, item);
    assert forall|i: int, j: int| 0 <= i < j < after.len() implies time(#[trigger] after[i])
        >= time(#[trigger] after[j]) by {
        let a = if i < at { i } else { i - 1 };
        let b = if j < at { j } else { j - 1 };
        if i != at {
            assert(after[i] == items[a]);
        }
        if j != at {
            assert(after[j] == items[b]);
        }
    }
    to_multiset_insert(items, at, item);
    to_multiset_insert(others, 0, item);
    assert(seq![item] + others =~= others.insert(0, item));
    assert forall|moment: u64| #[trigger]
        of_time(after, time, moment) == of_time(seq![item] + others, time, moment) by {
        inserted_before_its_time(items, at, item, time, moment);
        assert(of_time(items, time, moment) == of_time(others, time, moment));
        Seq::filter_distributes_over_add(seq![item], items, is_of(time, moment));
        Seq::filter_distributes_over_add(seq![item], others, is_of(time, moment));
    }
}

/// Byte strings are ordered by the first byte in which they differ, and a
/// beginning comes before what goes on.
pub proof fn the_first_difference_decides(
    common: Seq<u8>,
    x: u8,
    y: u8,
    a: Seq<u8>,
    b: Seq<u8>,
)
    requires
        x < y,
    ensures
        bytes_le(common + (seq![x] + a), common + (seq![y] + b)),
        !bytes_le(common + (seq![y] + b), common + (seq![x] + a)),
        bytes_le(common, common + a),
        a.len() > 0 ==> !bytes_le(common + a, common),
    decreases common.len(),
{
    let less = seq![x] + a;
    let more = seq![y] + b;
    if common.len() == 0 {
        assert(common + less =~= less);
        assert(common + more =~= more);
        assert(common + a =~= a);
    } else {
        let rest = common.skip(1);
        the_first_difference_decides(rest, x, y, a, b);
        assert((common + less).skip(1) =~= rest + less);
        assert((common + more).skip(1) =~= rest + more);
        assert((common + a).skip(1) =~= rest + a);
    }
}

/// In a list with the newest first, nothing is newer than what stands before it.
pub proof fn the_newest_stands_first<T>(items: Seq<T>, time: spec_fn(T) -> u64, i: int, j: int)
    requires
        newest_first(items, time),
        0 <= i <= j < items.len(),
    ensures
        time(items[j]) <= time(items[i]),
{
}

} // verus!
