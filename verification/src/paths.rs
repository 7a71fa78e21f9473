//! How a working directory is shown.
use vstd::prelude::*;
use vstd::string::*;

use crate::text::{chars_of, optional};

verus! {

/// Where the path component that begins at `from` ends.
pub open spec fn component_end(path: Seq<char>, from: int) -> int
    decreases path.len() - from,
{
    if from >= path.len() || path[from] == '/' {
        from
    } else {
        component_end(path, from + 1)
    }
}

/// A component ends after it begins, and within the path.
pub proof fn component_end_bounds(path: Seq<char>, from: int)
    requires
        0 <= from <= path.len(),
    ensures
        from <= component_end(path, from) <= path.len(),
        from < path.len() && path[from] != '/' ==> from < component_end(path, from),
    decreases path.len() - from,
{
    if from < path.len() && path[from] != '/' {
        component_end_bounds(path, from + 1);
    }
}

/// The components of a path at or after `from`, each with where it begins and
/// ends. Repeated separators and current-directory components are no
/// components, except that a relative path may begin with a single dot.
pub open spec fn components(path: Seq<char>, from: int) -> Seq<(int, int)>
    decreases path.len() - from,
{
    if from < 0 || from >= path.len() {
        Seq::empty()
    } else if path[from] == '/' {
        components(path, from + 1)
    } else {
        proof {
            component_end_bounds(path, from);
        }
        let end = component_end(path, from);
        let rest = components(path, end);
        if end == from + 1 && path[from] == '.' && from > 0 {
            rest
        } else {
            seq![(from, end)] + rest
        }
    }
}

pub open spec fn absolute(path: Seq<char>) -> bool {
    path.len() > 0 && path[0] == '/'
}

/// Whether the first components of `path` are those of `home`.
pub open spec fn under(path: Seq<char>, home: Seq<char>) -> bool {
    let inner = components(path, 0);
    let outer = components(home, 0);
    &&& outer.len() <= inner.len()
    &&& forall|i: int|
        0 <= i < outer.len() ==> path.subrange((#[trigger] inner[i]).0, inner[i].1)
            == home.subrange(outer[i].0, outer[i].1)
}

/// The path with the home directory written as a tilde; nothing when the path
/// is not under the home directory.
pub open spec fn abbreviated(path: Seq<char>, home: Seq<char>) -> Option<Seq<char>> {
    let inner = components(path, 0);
    let depth = components(home, 0).len();
    if home.len() == 0 || absolute(path) != absolute(home) || !under(path, home) {
        None
    } else if inner.len() == depth {
        Some("~"@)
    } else {
        Some("~/"@ + path.subrange(inner[depth as int].0, inner.last().1))
    }
}

/// The directory to show.
pub open spec fn displayed(cwd: Seq<char>, home: Option<Seq<char>>) -> Seq<char> {
    match home {
        Some(home) => match abbreviated(cwd, home) {
            Some(short) => short,
            None => cwd,
        },
        None => cwd,
    }
}

pub open spec fn ranges(list: Seq<(usize, usize)>) -> Seq<(int, int)> {
    list.map_values(|range: (usize, usize)| (range.0 as int, range.1 as int))
}

proof fn components_bounds(path: Seq<char>, from: int)
    requires
        0 <= from,
    ensures
        forall|i: int|
            0 <= i < components(path, from).len() ==> from <= (#[trigger] components(
                path,
                from,
            )[i]).0 < components(path, from)[i].1 <= path.len(),
        forall|i: int, j: int|
            0 <= i < j < components(path, from).len() ==> (#[trigger] components(path, from)[i]).1
                <= (#[trigger] components(path, from)[j]).0,
    decreases path.len() - from,
{
    if from < path.len() {
        component_end_bounds(path, from);
        if path[from] == '/' {
            components_bounds(path, from + 1);
            assert(components(path, from) == components(path, from + 1));
        } else {
            let end = component_end(path, from);
            components_bounds(path, end);
            let rest = components(path, end);
            if end == from + 1 && path[from] == '.' && from > 0 {
                assert(components(path, from) == rest);
            } else {
                let all = seq![(from, end)] + rest;
                assert(components(path, from) == all);
                assert forall|i: int| 0 <= i < all.len() implies from <= (#[trigger] all[i]).0
                    < all[i].1 <= path.len() by {
                    if i > 0 {
                        assert(all[i] == rest[i - 1]);
                    }
                }
                assert forall|i: int, j: int| 0 <= i < j < all.len() implies (#[trigger] all[i]).1
                    <= (#[trigger] all[j]).0 by {
                    assert(all[j] == rest[j - 1]);
                    if i > 0 {
                        assert(all[i] == rest[i - 1]);
                    }
                }
            }
        }
    }
}

/// Finds the components of a path.
fn split_components(path: &Vec<char>) -> (found: Vec<(usize, usize)>)
    ensures
        ranges(found@) == components(path@, 0),
{
    let mut found: Vec<(usize, usize)> = Vec::new();
    let mut from: usize = 0;
    assert(ranges(found@) + components(path@, 0) =~= components(path@, 0));
    while from < path.len()
        invariant
            from <= path@.len(),
            ranges(found@) + components(path@, from as int) == components(path@, 0),
        decreases path@.len() - from,
    {
        proof {
            component_end_bounds(path@, from as int);
        }
        if path[from] == '/' {
            from += 1;
        } else {
            let mut end: usize = from;
            while end < path.len() && path[end] != '/'
                invariant
                    from <= end <= path@.len(),
                    component_end(path@, from as int) == component_end(path@, end as int),
                decreases path@.len() - end,
            {
                end += 1;
            }
            let ghost before = found@;
            if !(end == from + 1 && path[from] == '.' && from > 0) {
                found.push((from, end));
                assert(ranges(found@) =~= ranges(before).push((from as int, end as int)));
                assert(ranges(before) + (seq![(from as int, end as int)] + components(
                    path@,
                    end as int,
                )) =~= ranges(found@) + components(path@, end as int));
            }
            from = end;
        }
    }
    assert(ranges(found@) + Seq::<(int, int)>::empty() =~= ranges(found@));
    found
}

/// Whether two ranges hold the same characters.
fn same_range(a: &Vec<char>, x: (usize, usize), b: &Vec<char>, y: (usize, usize)) -> (same: bool)
    requires
        x.0 <= x.1 <= a@.len(),
        y.0 <= y.1 <= b@.len(),
    ensures
        same == (a@.subrange(x.0 as int, x.1 as int) == b@.subrange(y.0 as int, y.1 as int)),
{
    let ghost left = a@.subrange(x.0 as int, x.1 as int);
    let ghost right = b@.subrange(y.0 as int, y.1 as int);
    if x.1 - x.0 != y.1 - y.0 {
        assert(left.len() != right.len());
        return false;
    }
    let count: usize = x.1 - x.0;
    let mut index: usize = 0;
    while index < count
        invariant
            index <= count,
            x.0 + count == x.1,
            y.0 + count == y.1,
            x.1 <= a@.len(),
            y.1 <= b@.len(),
            left == a@.subrange(x.0 as int, x.1 as int),
            right == b@.subrange(y.0 as int, y.1 as int),
            forall|i: int| 0 <= i < index ==> left[i] == right[i],
        decreases count - index,
    {
        if a[x.0 + index] != b[y.0 + index] {
            assert(left[index as int] != right[index as int]);
            return false;
        }
        index += 1;
    }
    assert(left =~= right);
    true
}

/// Writes a path with the home directory as a tilde.
pub fn abbreviate_home_directory(path: &str, home: &str) -> (short: Option<String>)
    ensures
        optional(short) == abbreviated(path@, home@),
{
    let path_chars = chars_of(path);
    let home_chars = chars_of(home);
    if home_chars.len() == 0 {
        return None;
    }
    let path_absolute = path_chars.len() > 0 && path_chars[0] == '/';
    if path_absolute != (home_chars[0] == '/') {
        return None;
    }
    let inner = split_components(&path_chars);
    let outer = split_components(&home_chars);
    let ghost inside = components(path@, 0);
    let ghost outside = components(home@, 0);
    proof {
        components_bounds(path@, 0);
        components_bounds(home@, 0);
        assert(inside.len() == inner@.len());
        assert(outside.len() == outer@.len());
    }
    if outer.len() > inner.len() {
        return None;
    }
    let mut index: usize = 0;
    while index < outer.len()
        invariant
            index <= outer@.len() <= inner@.len(),
            path_chars@ == path@,
            home_chars@ == home@,
            inside == components(path@, 0),
            outside == components(home@, 0),
            ranges(inner@) == inside,
            ranges(outer@) == outside,
            forall|i: int|
                0 <= i < inside.len() ==> 0 <= (#[trigger] inside[i]).0 < inside[i].1
                    <= path@.len(),
            forall|i: int|
                0 <= i < outside.len() ==> 0 <= (#[trigger] outside[i]).0 < outside[i].1
                    <= home@.len(),
            forall|i: int|
                0 <= i < index ==> path@.subrange((#[trigger] inside[i]).0, inside[i].1)
                    == home@.subrange(outside[i].0, outside[i].1),
        decreases outer@.len() - index,
    {
        assert(inside[index as int] == ranges(inner@)[index as int]);
        assert(outside[index as int] == ranges(outer@)[index as int]);
        if !same_range(&path_chars, inner[index], &home_chars, outer[index]) {
            return None;
        }
        index += 1;
    }
    assert(under(path@, home@));
    if inner.len() == outer.len() {
        return Some("~".to_owned());
    }
    let from: usize = inner[outer.len()].0;
    let to: usize = inner[inner.len() - 1].1;
    let mut short = "~/".to_owned();
    let mut at: usize = from;
    proof {
        assert(inside[outer@.len() as int] == ranges(inner@)[outer@.len() as int]);
        assert(inside[inner@.len() - 1] == ranges(inner@)[inner@.len() - 1]);
        assert("~/"@ + path@.subrange(from as int, from as int) =~= "~/"@);
    }
    while at < to
        invariant
            from <= at <= to <= path_chars@.len(),
            path_chars@ == path@,
            short@ == "~/"@ + path@.subrange(from as int, at as int),
        decreases to - at,
    {
        short.push(path_chars[at]);
        assert(path@.subrange(from as int, at + 1) =~= path@.subrange(
            from as int,
            at as int,
        ).push(path@[at as int]));
        assert(short@ =~= "~/"@ + path@.subrange(from as int, at + 1));
        at += 1;
    }
    Some(short)
}

/// The directory to show to a user whose home directory is `home`.
pub fn display_working_directory(cwd: &str, home: Option<&str>) -> (shown: String)
    ensures
        shown@ == displayed(
            cwd@,
            match home {
                Some(home) => Some(home@),
                None => None,
            },
        ),
{
    match home {
        Some(home) => match abbreviate_home_directory(cwd, home) {
            Some(short) => short,
            None => cwd.to_owned(),
        },
        None => cwd.to_owned(),
    }
}

/// Whether a path is absolute and written plainly: with no repeated separator,
/// no trailing one and no component that is a single dot.
pub open spec fn plain(path: Seq<char>) -> bool {
    &&& path.len() > 1
    &&& path[0] == '/'
    &&& path.last() != '/'
    &&& forall|i: int|
        0 <= i < path.len() - 1 && #[trigger] path[i] == '/' ==> path[i + 1] != '/' && !(path[i + 1]
            == '.' && (i + 2 == path.len() || path[i + 2] == '/'))
}

/// Whether a path is a directory or lies below it.
pub open spec fn at_or_below(path: Seq<char>, directory: Seq<char>) -> bool {
    ||| path == directory
    ||| path.len() > directory.len() && path.take(directory.len() as int) == directory
        && path[directory.len() as int] == '/'
}

/// An abbreviated directory names the directory that it stands for: with the
/// home directory in place of the leading tilde it is the path again. Every
/// directory at or below the home directory is abbreviated, and no other.
pub proof fn an_abbreviation_names_the_directory(path: Seq<char>, home: Seq<char>)
    requires
        plain(path),
        plain(home),
    ensures
        abbreviated(path, home) is Some <==> at_or_below(path, home),
        abbreviated(path, home) matches Some(short) ==> {
            &&& short.len() > 0
            &&& short[0] == '~'
            &&& home + short.skip(1) == path
        },
        displayed(path, Some(home)) == if at_or_below(path, home) {
            seq!['~'] + path.skip(home.len() as int)
        } else {
            path
        },
        displayed(path, None) == path,
{
    reveal_strlit("~");
    reveal_strlit("~/");
    let inner = components(path, 0);
    let outer = components(home, 0);
    let depth = outer.len() as int;
    let h = home.len() as int;
    plain_components(path, 0);
    plain_components(home, 0);
    if under(path, home) {
        same_start(path, home, depth);
        assert(home.take(h) =~= home);
        assert(path.take(h) == home);
        if inner.len() == depth {
            assert(path =~= home);
            assert("~"@.skip(1) =~= Seq::empty());
            assert(home + Seq::<char>::empty() =~= path);
            assert(seq!['~'] + path.skip(h) =~= "~"@);
        } else {
            assert(inner[depth].0 == inner[depth - 1].1 + 1);
            assert(path[h] == '/');
            let short = "~/"@ + path.subrange(inner[depth].0, inner.last().1);
            assert(home + short.skip(1) =~= path);
            assert(seq!['~'] + path.skip(h) =~= short);
        }
    }
    if at_or_below(path, home) && path != home {
        prefix_components(path, home, 0);
        let rest = components(path, h);
        assert(inner == outer + rest);
        assert forall|i: int| 0 <= i < outer.len() implies path.subrange(
            (#[trigger] inner[i]).0,
            inner[i].1,
        ) == home.subrange(outer[i].0, outer[i].1) by {
            components_bounds(home, 0);
            assert(inner[i] == outer[i]);
            assert forall|j: int| 0 <= j < h implies path[j] == home[j] by {
                assert(path.take(h)[j] == home[j]);
            }
            assert(path.subrange(inner[i].0, inner[i].1) =~= home.subrange(
                outer[i].0,
                outer[i].1,
            ));
        }
        assert(under(path, home));
    }
}

/// Where the component that begins at `from` ends, there is the end of the path
/// or a separator.
proof fn component_end_is_a_separator(path: Seq<char>, from: int)
    requires
        0 <= from <= path.len(),
    ensures
        component_end(path, from) == path.len() || path[component_end(path, from)] == '/',
    decreases path.len() - from,
{
    component_end_bounds(path, from);
    if from < path.len() && path[from] != '/' {
        component_end_is_a_separator(path, from + 1);
    }
}

/// The components of a plain path follow each other with one separator between
/// them, from the separator at `from` to the end of the path.
proof fn plain_components(path: Seq<char>, from: int)
    requires
        plain(path),
        0 <= from <= path.len(),
        from == path.len() || path[from] == '/',
    ensures
        ({
            let list = components(path, from);
            &&& list.len() == 0 <==> from == path.len()
            &&& list.len() > 0 ==> list[0].0 == from + 1 && list.last().1 == path.len()
            &&& forall|i: int|
                0 <= i < list.len() ==> from < (#[trigger] list[i]).0 < list[i].1 <= path.len()
                    && path[list[i].0 - 1] == '/'
            &&& forall|i: int|
                0 <= i < list.len() - 1 ==> list[i + 1].0 == (#[trigger] list[i]).1 + 1
        }),
    decreases path.len() - from,
{
    if from < path.len() {
        assert(path[from] == '/');
        assert(from + 1 < path.len());
        assert(path[from + 1] != '/');
        component_end_bounds(path, from + 1);
        component_end_is_a_separator(path, from + 1);
        let end = component_end(path, from + 1);
        if end == from + 2 && path[from + 1] == '.' {
            assert(from + 2 == path.len() || path[from + 2] == '/');
            assert(false);
        }
        plain_components(path, end);
        let rest = components(path, end);
        let list = components(path, from);
        assert(components(path, from + 1) == seq![(from + 1, end)] + rest);
        assert(list == seq![(from + 1, end)] + rest);
        assert forall|i: int| 0 <= i < list.len() implies from < (#[trigger] list[i]).0
            < list[i].1 <= path.len() && path[list[i].0 - 1] == '/' by {
            if i > 0 {
                assert(list[i] == rest[i - 1]);
            }
        }
        assert forall|i: int| 0 <= i < list.len() - 1 implies list[i + 1].0 == (
        #[trigger] list[i]).1 + 1 by {
            assert(list[i + 1] == rest[i]);
            if i > 0 {
                assert(list[i] == rest[i - 1]);
            }
        }
        if rest.len() > 0 {
            assert(list.last() == rest.last());
        }
    }
}

/// Plain paths whose first components are the same begin with the same
/// characters.
proof fn same_start(path: Seq<char>, home: Seq<char>, n: int)
    requires
        plain(path),
        plain(home),
        under(path, home),
        0 < n <= components(home, 0).len(),
    ensures
        components(path, 0)[n - 1].1 == components(home, 0)[n - 1].1,
        path.take(components(home, 0)[n - 1].1) == home.take(components(home, 0)[n - 1].1),
    decreases n,
{
    let inner = components(path, 0);
    let outer = components(home, 0);
    plain_components(path, 0);
    plain_components(home, 0);
    let last = n - 1;
    if last > 0 {
        same_start(path, home, last);
        assert(inner[last - 1 + 1].0 == inner[last - 1].1 + 1);
        assert(outer[last - 1 + 1].0 == outer[last - 1].1 + 1);
    }
    let from = outer[last].0;
    assert(inner[last].0 == from);
    let there = path.subrange(from, inner[last].1);
    let here = home.subrange(from, outer[last].1);
    assert(there == here);
    assert(there.len() == inner[last].1 - from);
    assert(here.len() == outer[last].1 - from);
    let end = outer[last].1;
    assert forall|i: int| 0 <= i < end implies path[i] == home[i] by {
        if i >= from {
            assert(there[i - from] == here[i - from]);
        } else if i == from - 1 {
            assert(path[i] == '/' && home[i] == '/');
        } else {
            let before = outer[last - 1].1;
            assert(path.take(before)[i] == home.take(before)[i]);
        }
    }
    assert(path.take(end) =~= home.take(end));
}

/// A path that goes on with a separator after a prefix has the components of
/// the prefix first.
proof fn prefix_components(path: Seq<char>, home: Seq<char>, from: int)
    requires
        path.len() > home.len(),
        path.take(home.len() as int) == home,
        path[home.len() as int] == '/',
        0 <= from <= home.len(),
    ensures
        components(path, from) == components(home, from) + components(path, home.len() as int),
    decreases home.len() - from,
{
    let h = home.len() as int;
    let rest = components(path, h);
    if from == h {
        assert(components(home, from) + rest =~= rest);
    } else {
        assert(path.take(h)[from] == path[from]);
        if home[from] == '/' {
            prefix_components(path, home, from + 1);
        } else {
            prefix_component_end(path, home, from);
            component_end_bounds(home, from);
            let end = component_end(home, from);
            prefix_components(path, home, end);
            assert(seq![(from, end)] + (components(home, end) + rest) =~= (seq![(from, end)]
                + components(home, end)) + rest);
        }
    }
}

proof fn prefix_component_end(path: Seq<char>, home: Seq<char>, from: int)
    requires
        path.len() > home.len(),
        path.take(home.len() as int) == home,
        path[home.len() as int] == '/',
        0 <= from <= home.len(),
    ensures
        component_end(path, from) == component_end(home, from),
    decreases home.len() - from,
{
    if from < home.len() {
        assert(path.take(home.len() as int)[from] == path[from]);
        prefix_component_end(path, home, from + 1);
    }
}

} // verus!
