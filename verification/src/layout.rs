//! How the terminals of a view share its canvas.
use vstd::arithmetic::div_mod::*;
use vstd::arithmetic::mul::*;
use vstd::prelude::*;
use vstd::string::*;

use crate::proto::TerminalSize;
use crate::text::{decimal, decimal_text, same_text, texts};

verus! {

/// The direction in which a split lines up its children.
#[derive(Debug, Clone, Copy, PartialEq, Eq, Structural)]
pub enum SplitAxis {
    Horizontal,
    Vertical,
}

/// A tree of splits whose leaves are terminals.
#[derive(Debug, PartialEq, Eq)]
pub enum ViewLayout {
    Terminal { terminal_id: String },
    Split { axis: SplitAxis, children: Vec<ViewLayout> },
}

/// The mathematical content of a [`ViewLayout`].
pub enum Layout {
    Leaf { id: Seq<char> },
    Group { axis: SplitAxis, children: Seq<Layout> },
}

/// The contents of a list of layouts.
pub open spec fn layouts(list: Seq<ViewLayout>) -> Seq<Layout>
    decreases list,
{
    if list.len() == 0 {
        Seq::empty()
    } else {
        layouts(list.drop_last()).push(list.last().content())
    }
}

impl ViewLayout {
    pub open spec fn content(self) -> Layout
        decreases self,
    {
        match self {
            ViewLayout::Terminal { terminal_id } => Layout::Leaf { id: terminal_id@ },
            ViewLayout::Split { axis, children } => Layout::Group {
                axis,
                children: layouts(children@),
            },
        }
    }
}

impl View for ViewLayout {
    type V = Layout;

    open spec fn view(&self) -> Layout {
        self.content()
    }
}

/// The list of contents is the list of the contents of each layout.
pub proof fn layouts_facts(list: Seq<ViewLayout>)
    ensures
        layouts(list).len() == list.len(),
        forall|i: int| 0 <= i < list.len() ==> #[trigger] layouts(list)[i] == list[i]@,
    decreases list.len(),
{
    if list.len() > 0 {
        layouts_facts(list.drop_last());
        assert forall|i: int| 0 <= i < list.len() implies #[trigger] layouts(list)[i] == list[i]@ by {
            if i < list.len() - 1 {
                assert(layouts(list)[i] == layouts(list.drop_last())[i]);
                assert(list.drop_last()[i] == list[i]);
            }
        }
    }
}

impl Layout {
    /// The terminals of the layout, from left to right and top to bottom.
    pub open spec fn ids(self) -> Seq<Seq<char>>
        decreases self,
    {
        match self {
            Layout::Leaf { id } => seq![id],
            Layout::Group { children, .. } => ids_of(children),
        }
    }

    /// The smallest canvas that leaves every terminal two columns and one row,
    /// whatever child the remainder of a division goes to.
    pub open spec fn minimum(self) -> (nat, nat)
        decreases self,
    {
        match self {
            Layout::Leaf { .. } => (2, 1),
            Layout::Group { axis, children } => {
                let child = largest(children);
                let dividers = if children.len() == 0 {
                    0
                } else {
                    (children.len() - 1) as nat
                };
                match axis {
                    SplitAxis::Horizontal => (child.0 * children.len() + dividers, child.1),
                    SplitAxis::Vertical => (child.0, child.1 * children.len() + dividers),
                }
            },
        }
    }

    /// Whether no split in the layout is empty.
    pub open spec fn inhabited(self) -> bool
        decreases self,
    {
        match self {
            Layout::Leaf { .. } => true,
            Layout::Group { children, .. } => children.len() > 0 && all_inhabited(children),
        }
    }

    /// Whether the layout fits a canvas.
    pub open spec fn fits(self, columns: int, rows: int) -> bool {
        self.minimum().0 <= columns && self.minimum().1 <= rows
    }
}

pub open spec fn ids_of(list: Seq<Layout>) -> Seq<Seq<char>>
    decreases list,
{
    if list.len() == 0 {
        Seq::empty()
    } else {
        ids_of(list.drop_last()) + list.last().ids()
    }
}

/// The largest of the children's minimum extents, and at least a single
/// terminal's.
pub open spec fn largest(list: Seq<Layout>) -> (nat, nat)
    decreases list,
{
    if list.len() == 0 {
        (2, 1)
    } else {
        let rest = largest(list.drop_last());
        let last = list.last().minimum();
        (
            if rest.0 < last.0 {
                last.0
            } else {
                rest.0
            },
            if rest.1 < last.1 {
                last.1
            } else {
                rest.1
            },
        )
    }
}

pub open spec fn all_inhabited(list: Seq<Layout>) -> bool
    decreases list,
{
    list.len() > 0 ==> all_inhabited(list.drop_last()) && list.last().inhabited()
}

/// The rectangle that one terminal occupies.
#[derive(Debug, PartialEq, Eq)]
pub struct PaneGeometry {
    pub terminal_id: String,
    pub left: u16,
    pub top: u16,
    pub columns: u16,
    pub rows: u16,
}

impl Clone for PaneGeometry {
    fn clone(&self) -> (copy: Self)
        ensures
            copy == *self,
    {
        PaneGeometry {
            terminal_id: self.terminal_id.clone(),
            left: self.left,
            top: self.top,
            columns: self.columns,
            rows: self.rows,
        }
    }
}

/// A rectangle of cells with the terminal in it.
pub struct Pane {
    pub id: Seq<char>,
    pub left: int,
    pub top: int,
    pub columns: int,
    pub rows: int,
}

impl View for PaneGeometry {
    type V = Pane;

    open spec fn view(&self) -> Pane {
        Pane {
            id: self.terminal_id@,
            left: self.left as int,
            top: self.top as int,
            columns: self.columns as int,
            rows: self.rows as int,
        }
    }
}

pub open spec fn panes_of(list: Seq<PaneGeometry>) -> Seq<Pane> {
    list.map_values(|pane: PaneGeometry| pane@)
}

/// The cells of child `index` along the axis, when `count` children share
/// `length` cells with one divider cell between neighbours. Remainder cells go
/// to earlier children.
pub open spec fn extent(length: int, count: int, index: int) -> int {
    let available = length - (count - 1);
    available / count + if index < available % count {
        1int
    } else {
        0int
    }
}

/// Where child `index` begins along the axis.
pub open spec fn offset(length: int, count: int, index: int) -> int
    decreases index,
{
    if index <= 0 {
        0
    } else {
        offset(length, count, index - 1) + extent(length, count, index - 1) + 1
    }
}

impl Layout {
    /// The panes of the layout on a canvas, in the order of its terminals.
    pub open spec fn placed(self, left: int, top: int, columns: int, rows: int) -> Seq<Pane>
        decreases self,
    {
        match self {
            Layout::Leaf { id } => seq![Pane { id, left, top, columns, rows }],
            Layout::Group { axis, children } => placed_children(
                axis,
                children,
                children.len() as int,
                left,
                top,
                columns,
                rows,
            ),
        }
    }
}

/// The panes of the first children of a split that has `count` in all.
pub open spec fn placed_children(
    axis: SplitAxis,
    list: Seq<Layout>,
    count: int,
    left: int,
    top: int,
    columns: int,
    rows: int,
) -> Seq<Pane>
    decreases list,
{
    if list.len() == 0 {
        Seq::empty()
    } else {
        let index = list.len() - 1;
        let rest = placed_children(axis, list.drop_last(), count, left, top, columns, rows);
        rest + match axis {
            SplitAxis::Horizontal => list.last().placed(
                left + offset(columns, count, index),
                top,
                extent(columns, count, index),
                rows,
            ),
            SplitAxis::Vertical => list.last().placed(
                left,
                top + offset(rows, count, index),
                columns,
                extent(rows, count, index),
            ),
        }
    }
}

/// The children of a split fill its axis exactly: each begins one divider
/// after the one before it ends, and the last ends where the split ends.
pub proof fn splits_fill_their_axis(length: int, count: int)
    requires
        count > 0,
        length >= count - 1,
    ensures
        offset(length, count, 0) == 0,
        forall|i: int|
            0 <= i < count ==> #[trigger] offset(length, count, i + 1) == offset(length, count, i)
                + extent(length, count, i) + 1,
        offset(length, count, count) == length + 1,
        forall|i: int, j: int|
            0 <= i <= j < count ==> #[trigger] extent(length, count, j) <= #[trigger] extent(
                length,
                count,
                i,
            ) <= extent(length, count, j) + 1,
{
    offset_closed_form(length, count, count);
    let available = length - (count - 1);
    lemma_fundamental_div_mod(available, count);
    lemma_mod_bound(available, count);
    lemma_mul_is_commutative(count, available / count);
}

proof fn offset_closed_form(length: int, count: int, index: int)
    requires
        count > 0,
        length >= count - 1,
        0 <= index <= count,
    ensures
        offset(length, count, index) == index * ((length - (count - 1)) / count) + index + if index
            < (length - (count - 1)) % count {
            index
        } else {
            (length - (count - 1)) % count
        },
    decreases index,
{
    let share = (length - (count - 1)) / count;
    lemma_mod_bound(length - (count - 1), count);
    if index > 0 {
        offset_closed_form(length, count, index - 1);
        assert(index * share == (index - 1) * share + share) by (nonlinear_arith);
    } else {
        assert(0 * share == 0);
    }
}

/// Every child of a split that fits gets at least the largest minimum.
proof fn extents_suffice(length: int, count: int, need: int, index: int)
    requires
        count > 0,
        need >= 0,
        length >= need * count + count - 1,
        0 <= index < count,
    ensures
        extent(length, count, index) >= need,
        offset(length, count, index) >= 0,
        offset(length, count, index) + extent(length, count, index) <= length,
{
    let available = length - (count - 1);
    assert(available >= need * count);
    assert(need * count >= 0) by (nonlinear_arith)
        requires
            need >= 0,
            count > 0,
    ;
    lemma_div_is_ordered(need * count, available, count);
    lemma_div_by_multiple(need, count);
    splits_fill_their_axis(length, count);
    offset_closed_form(length, count, index);
    offset_closed_form(length, count, index + 1);
    lemma_mod_bound(available, count);
    lemma_div_pos_is_pos(available, count);
    let share = available / count;
    assert(index * share >= 0) by (nonlinear_arith)
        requires
            index >= 0,
            share >= 0,
    ;
    assert((index + 1) * share <= count * share) by (nonlinear_arith)
        requires
            index + 1 <= count,
            share >= 0,
    ;
    lemma_fundamental_div_mod(available, count);
    lemma_mul_is_commutative(count, share);
}

/// `n`, or the largest `u32` if that is smaller.
pub open spec fn capped(n: nat) -> nat {
    if n < u32::MAX {
        n
    } else {
        u32::MAX as nat
    }
}

proof fn largest_is_positive(list: Seq<Layout>)
    ensures
        largest(list).0 >= 2,
        largest(list).1 >= 1,
    decreases list.len(),
{
    if list.len() > 0 {
        largest_is_positive(list.drop_last());
    }
}

proof fn largest_bounds_each(list: Seq<Layout>, i: int)
    requires
        0 <= i < list.len(),
    ensures
        list[i].minimum().0 <= largest(list).0,
        list[i].minimum().1 <= largest(list).1,
    decreases list.len(),
{
    if i < list.len() - 1 {
        largest_bounds_each(list.drop_last(), i);
    }
}

/// The cells that `count` children of `each` cells need along the axis, with
/// the dividers between them.
fn along_axis(each: u32, children: usize) -> (total: u32)
    requires
        each > 0,
    ensures
        forall|n: nat| #[trigger]
            capped(n) == each ==> total == capped(
                n * (children as nat) + if children == 0 {
                    0
                } else {
                    (children - 1) as nat
                },
            ),
{
    let count: u64 = if children as u64 > u32::MAX as u64 {
        u32::MAX as u64
    } else {
        children as u64
    };
    let dividers: u64 = if count == 0 {
        0
    } else {
        count - 1
    };
    assert(each * count <= 0xffff_ffff * 0xffff_ffff) by (nonlinear_arith)
        requires
            each <= 0xffff_ffff,
            count <= 0xffff_ffff,
    ;
    let total: u64 = each as u64 * count + dividers;
    let capped_total: u32 = if total > u32::MAX as u64 {
        u32::MAX
    } else {
        total as u32
    };
    proof {
        assert forall|n: nat| #[trigger] capped(n) == each implies capped_total == capped(
            n * (children as nat) + if children == 0 {
                0
            } else {
                (children - 1) as nat
            },
        ) by {
            if children == 0 {
                assert(n * 0 == 0) by (nonlinear_arith);
                assert(each * 0 == 0) by (nonlinear_arith);
            } else if n > u32::MAX || children > u32::MAX {
                assert(n * (children as nat) >= n && n * (children as nat) >= children)
                    by (nonlinear_arith)
                    requires
                        n >= 1,
                        children >= 1,
                ;
                assert(each * count >= each && each * count >= count) by (nonlinear_arith)
                    requires
                        each >= 1,
                        count >= 1,
                ;
            }
        }
    }
    capped_total
}

impl Clone for ViewLayout {
    fn clone(&self) -> (copy: Self)
        ensures
            copy@ == self@,
        decreases self,
    {
        match self {
            ViewLayout::Terminal { terminal_id } => ViewLayout::Terminal {
                terminal_id: terminal_id.clone(),
            },
            ViewLayout::Split { axis, children } => {
                let mut copies: Vec<ViewLayout> = Vec::new();
                let mut index: usize = 0;
                while index < children.len()
                    invariant
                        index <= children@.len(),
                        copies@.len() == index,
                        forall|i: int| 0 <= i < index ==> (#[trigger] copies@[i])@ == children@[i]@,
                        decreases_to!(self => children),
                    decreases children@.len() - index,
                {
                    let child: &ViewLayout = &children[index];
                    copies.push(child.clone());
                    index += 1;
                }
                proof {
                    layouts_facts(copies@);
                    layouts_facts(children@);
                    assert(layouts(copies@) =~= layouts(children@));
                }
                ViewLayout::Split { axis: *axis, children: copies }
            },
        }
    }
}

impl ViewLayout {
    /// Minimum canvas that leaves every PTY at least two columns and one row.
    pub fn minimum_size(&self) -> (size: (u32, u32))
        ensures
            size.0 == capped(self@.minimum().0),
            size.1 == capped(self@.minimum().1),
        decreases self,
    {
        match self {
            ViewLayout::Terminal { .. } => (2, 1),
            ViewLayout::Split { axis, children } => {
                let mut columns: u32 = 2;
                let mut rows: u32 = 1;
                let mut index: usize = 0;
                proof {
                    layouts_facts(children@);
                    assert(layouts(children@).take(0) =~= Seq::empty());
                }
                while index < children.len()
                    invariant
                        index <= children@.len(),
                        layouts(children@).len() == children@.len(),
                        forall|i: int|
                            0 <= i < children@.len() ==> #[trigger] layouts(children@)[i]
                                == children@[i]@,
                        columns == capped(largest(layouts(children@).take(index as int)).0),
                        rows == capped(largest(layouts(children@).take(index as int)).1),
                        decreases_to!(self => children),
                    decreases children@.len() - index,
                {
                    let child: &ViewLayout = &children[index];
                    let size = child.minimum_size();
                    proof {
                        let taken = layouts(children@).take(index + 1);
                        assert(taken.drop_last() =~= layouts(children@).take(index as int));
                        assert(taken.last() == child@);
                    }
                    if columns < size.0 {
                        columns = size.0;
                    }
                    if rows < size.1 {
                        rows = size.1;
                    }
                    index += 1;
                }
                proof {
                    assert(layouts(children@).take(index as int) =~= layouts(children@));
                    largest_is_positive(layouts(children@));
                }
                match axis {
                    SplitAxis::Horizontal => (along_axis(columns, children.len()), rows),
                    SplitAxis::Vertical => (columns, along_axis(rows, children.len())),
                }
            },
        }
    }

    /// Appends the panes of the layout on a canvas that it fits. Fails only
    /// when the layout holds an empty split.
    fn place(
        &self,
        left: u16,
        top: u16,
        columns: u16,
        rows: u16,
        panes: &mut Vec<PaneGeometry>,
    ) -> (complete: bool)
        requires
            self@.fits(columns as int, rows as int),
            left + columns <= u16::MAX,
            top + rows <= u16::MAX,
        ensures
            complete == self@.inhabited(),
            complete ==> panes_of(final(panes)@) == panes_of(old(panes)@) + self@.placed(
                left as int,
                top as int,
                columns as int,
                rows as int,
            ),
        decreases self,
    {
        match self {
            ViewLayout::Terminal { terminal_id } => {
                let pane = PaneGeometry {
                    terminal_id: terminal_id.clone(),
                    left,
                    top,
                    columns,
                    rows,
                };
                panes.push(pane);
                assert(panes_of(panes@) =~= panes_of(old(panes)@).push(pane@));
                true
            },
            ViewLayout::Split { axis, children } => {
                if children.len() == 0 {
                    return false;
                }
                let ghost list = layouts(children@);
                let horizontal = *axis == SplitAxis::Horizontal;
                let length: u16 = if horizontal {
                    columns
                } else {
                    rows
                };
                let ghost need: int = if horizontal {
                    largest(list).0 as int
                } else {
                    largest(list).1 as int
                };
                proof {
                    layouts_facts(children@);
                    largest_is_positive(list);
                    assert(need * list.len() >= list.len()) by (nonlinear_arith)
                        requires
                            need >= 1,
                            list.len() >= 0,
                    ;
                    assert(list.take(0) =~= Seq::empty());
                    assert(panes_of(panes@) + Seq::<Pane>::empty() =~= panes_of(panes@));
                }
                let count: u16 = children.len() as u16;
                let available: u16 = length - (count - 1);
                let mut at: u16 = 0;
                let mut index: usize = 0;
                while index < children.len()
                    invariant
                        index <= children@.len(),
                        count == children@.len(),
                        count > 0,
                        list == layouts(children@),
                        self@ == (Layout::Group { axis: *axis, children: list }),
                        list.len() == children@.len(),
                        forall|i: int|
                            0 <= i < children@.len() ==> #[trigger] list[i] == children@[i]@,
                        horizontal == (*axis == SplitAxis::Horizontal),
                        length == if horizontal {
                            columns
                        } else {
                            rows
                        },
                        need == if horizontal {
                            largest(list).0 as int
                        } else {
                            largest(list).1 as int
                        },
                        need >= 1,
                        length >= need * count + count - 1,
                        available == length - (count - 1),
                        if horizontal {
                            largest(list).1 <= rows
                        } else {
                            largest(list).0 <= columns
                        },
                        left + columns <= u16::MAX,
                        top + rows <= u16::MAX,
                        index < count ==> at == offset(length as int, count as int, index as int),
                        panes_of(panes@) == panes_of(old(panes)@) + placed_children(
                            *axis,
                            list.take(index as int),
                            count as int,
                            left as int,
                            top as int,
                            columns as int,
                            rows as int,
                        ),
                        all_inhabited(list.take(index as int)),
                        decreases_to!(self => children),
                    decreases children@.len() - index,
                {
                    let child: &ViewLayout = &children[index];
                    let extra: u16 = if index < (available % count) as usize {
                        1
                    } else {
                        0
                    };
                    proof {
                        extents_suffice(length as int, count as int, need, index as int);
                        if index + 1 < count {
                            extents_suffice(length as int, count as int, need, index + 1);
                        }
                        splits_fill_their_axis(length as int, count as int);
                        largest_bounds_each(list, index as int);
                        let taken = list.take(index + 1);
                        assert(taken.drop_last() =~= list.take(index as int));
                        assert(taken.last() == child@);
                        if !child@.inhabited() {
                            inhabited_at(list, index as int);
                        }
                    }
                    let cells: u16 = available / count + extra;
                    assert(cells == extent(length as int, count as int, index as int));
                    let ghost before = panes_of(panes@);
                    let complete = if horizontal {
                        child.place(left + at, top, cells, rows, panes)
                    } else {
                        child.place(left, top + at, columns, cells, panes)
                    };
                    if !complete {
                        return false;
                    }
                    assert(panes_of(panes@) =~= panes_of(old(panes)@) + placed_children(
                        *axis,
                        list.take(index + 1),
                        count as int,
                        left as int,
                        top as int,
                        columns as int,
                        rows as int,
                    ));
                    index += 1;
                    if index < children.len() {
                        at = at + cells + 1;
                    }
                }
                assert(list.take(index as int) =~= list);
                true
            },
        }
    }

    /// Allocates equal splits deterministically; remainder cells go to earlier
    /// children.
    ///
    /// Refuses a canvas too small for the terminal cells and dividers, and a
    /// layout with an empty split.
    pub fn pane_geometry(&self, size: &TerminalSize) -> (result: Result<Vec<PaneGeometry>, String>)
        ensures
            result is Ok <==> self@.fits(size.columns as int, size.rows as int)
                && self@.inhabited(),
            result matches Ok(panes) ==> panes_of(panes@) == self@.placed(
                0,
                0,
                size.columns as int,
                size.rows as int,
            ),
            result matches Err(message) ==> message@ == geometry_problem(self@, *size),
    {
        let minimum = self.minimum_size();
        if (size.columns as u32) < minimum.0 || (size.rows as u32) < minimum.1 {
            let mut message = "view needs at least ".to_owned();
            message.append(decimal_text(minimum.0 as u64).as_str());
            message.append(" columns and ");
            message.append(decimal_text(minimum.1 as u64).as_str());
            message.append(" rows");
            return Err(message);
        }
        let mut panes: Vec<PaneGeometry> = Vec::new();
        assert(panes_of(panes@) =~= Seq::empty());
        if self.place(0, 0, size.columns, size.rows, &mut panes) {
            assert(panes_of(panes@) =~= self@.placed(
                0,
                0,
                size.columns as int,
                size.rows as int,
            ));
            Ok(panes)
        } else {
            Err("empty split".to_owned())
        }
    }
}

/// Why a layout cannot be placed on a canvas.
pub open spec fn geometry_problem(layout: Layout, size: TerminalSize) -> Seq<char> {
    if layout.fits(size.columns as int, size.rows as int) {
        "empty split"@
    } else {
        "view needs at least "@ + decimal(capped(layout.minimum().0)) + " columns and "@ + decimal(
            capped(layout.minimum().1),
        ) + " rows"@
    }
}

proof fn inhabited_at(list: Seq<Layout>, i: int)
    requires
        0 <= i < list.len(),
        !list[i].inhabited(),
    ensures
        !all_inhabited(list),
    decreases list.len(),
{
    if i < list.len() - 1 {
        inhabited_at(list.drop_last(), i);
    }
}

impl Pane {
    /// Whether the pane lies inside a rectangle.
    pub open spec fn within(self, left: int, top: int, columns: int, rows: int) -> bool {
        &&& left <= self.left
        &&& top <= self.top
        &&& self.left + self.columns <= left + columns
        &&& self.top + self.rows <= top + rows
    }

    /// Whether two panes have no cell in common.
    pub open spec fn apart(self, other: Pane) -> bool {
        ||| self.left + self.columns <= other.left
        ||| other.left + other.columns <= self.left
        ||| self.top + self.rows <= other.top
        ||| other.top + other.rows <= self.top
    }
}

/// Whether every pane lies inside a rectangle and is at least two columns wide
/// and one row high.
pub open spec fn usable_within(
    panes: Seq<Pane>,
    left: int,
    top: int,
    columns: int,
    rows: int,
) -> bool {
    forall|i: int|
        0 <= i < panes.len() ==> {
            &&& (#[trigger] panes[i]).within(left, top, columns, rows)
            &&& panes[i].columns >= 2
            &&& panes[i].rows >= 1
        }
}

/// Whether no two panes share a cell.
pub open spec fn disjoint(panes: Seq<Pane>) -> bool {
    forall|i: int, j: int|
        0 <= i < j < panes.len() ==> (#[trigger] panes[i]).apart(#[trigger] panes[j])
}

pub open spec fn pane_ids(panes: Seq<Pane>) -> Seq<Seq<char>> {
    panes.map_values(|pane: Pane| pane.id)
}

/// A layout that fits its canvas gives each of its terminals, in order, a pane
/// inside the canvas of at least two columns and one row, and no two panes
/// overlap.
pub proof fn panes_tile_the_canvas(layout: Layout, left: int, top: int, columns: int, rows: int)
    requires
        layout.fits(columns, rows),
        layout.inhabited(),
    ensures
        pane_ids(layout.placed(left, top, columns, rows)) == layout.ids(),
        usable_within(layout.placed(left, top, columns, rows), left, top, columns, rows),
        disjoint(layout.placed(left, top, columns, rows)),
    decreases layout, 0int,
{
    match layout {
        Layout::Leaf { id } => {
            assert(pane_ids(layout.placed(left, top, columns, rows)) =~= layout.ids());
        },
        Layout::Group { axis, children } => {
            let count = children.len() as int;
            largest_is_positive(children);
            let need = match axis {
                SplitAxis::Horizontal => largest(children).0 as int,
                SplitAxis::Vertical => largest(children).1 as int,
            };
            assert(children.take(count) =~= children);
            children_tile_the_axis(axis, children, count, left, top, columns, rows);
            extents_suffice(
                match axis {
                    SplitAxis::Horizontal => columns,
                    SplitAxis::Vertical => rows,
                },
                count,
                need,
                count - 1,
            );
            splits_fill_their_axis(
                match axis {
                    SplitAxis::Horizontal => columns,
                    SplitAxis::Vertical => rows,
                },
                count,
            );
        },
    }
}

/// The first `n` children occupy the axis up to where the next one begins.
proof fn children_tile_the_axis(
    axis: SplitAxis,
    children: Seq<Layout>,
    n: int,
    left: int,
    top: int,
    columns: int,
    rows: int,
)
    requires
        0 <= n <= children.len(),
        children.len() > 0,
        all_inhabited(children),
        (Layout::Group { axis, children }).fits(columns, rows),
    ensures
        ({
            let panes = placed_children(
                axis,
                children.take(n),
                children.len() as int,
                left,
                top,
                columns,
                rows,
            );
            &&& pane_ids(panes) == ids_of(children.take(n))
            &&& disjoint(panes)
            &&& match axis {
                SplitAxis::Horizontal => usable_within(
                    panes,
                    left,
                    top,
                    offset(columns, children.len() as int, n) - 1,
                    rows,
                ),
                SplitAxis::Vertical => usable_within(
                    panes,
                    left,
                    top,
                    columns,
                    offset(rows, children.len() as int, n) - 1,
                ),
            }
        }),
    decreases children, n,
{
    let count = children.len() as int;
    if n == 0 {
        assert(children.take(0) =~= Seq::empty());
        assert(pane_ids(Seq::<Pane>::empty()) =~= Seq::empty());
    } else {
        children_tile_the_axis(axis, children, n - 1, left, top, columns, rows);
        let taken = children.take(n);
        let child = children[n - 1];
        assert(taken.drop_last() =~= children.take(n - 1));
        assert(taken.last() == child);
        largest_is_positive(children);
        largest_bounds_each(children, n - 1);
        if !child.inhabited() {
            inhabited_at(children, n - 1);
        }
        let earlier = placed_children(
            axis,
            children.take(n - 1),
            count,
            left,
            top,
            columns,
            rows,
        );
        match axis {
            SplitAxis::Horizontal => {
                let at = offset(columns, count, n - 1);
                let cells = extent(columns, count, n - 1);
                extents_suffice(columns, count, largest(children).0 as int, n - 1);
                panes_tile_the_canvas(child, left + at, top, cells, rows);
                let own = child.placed(left + at, top, cells, rows);
                assert(pane_ids(earlier + own) =~= pane_ids(earlier) + pane_ids(own));
                assert(offset(columns, count, n) == at + cells + 1);
                assert forall|i: int, j: int| 0 <= i < j < (earlier + own).len() implies (
                #[trigger] (earlier + own)[i]).apart(#[trigger] (earlier + own)[j]) by {
                    if i < earlier.len() && j >= earlier.len() {
                        assert((earlier + own)[i] == earlier[i]);
                        assert((earlier + own)[j] == own[j - earlier.len()]);
                    }
                }
            },
            SplitAxis::Vertical => {
                let at = offset(rows, count, n - 1);
                let cells = extent(rows, count, n - 1);
                extents_suffice(rows, count, largest(children).1 as int, n - 1);
                panes_tile_the_canvas(child, left, top + at, columns, cells);
                let own = child.placed(left, top + at, columns, cells);
                assert(pane_ids(earlier + own) =~= pane_ids(earlier) + pane_ids(own));
                assert(offset(rows, count, n) == at + cells + 1);
                assert forall|i: int, j: int| 0 <= i < j < (earlier + own).len() implies (
                #[trigger] (earlier + own)[i]).apart(#[trigger] (earlier + own)[j]) by {
                    if i < earlier.len() && j >= earlier.len() {
                        assert((earlier + own)[i] == earlier[i]);
                        assert((earlier + own)[j] == own[j - earlier.len()]);
                    }
                }
            },
        }
    }
}

impl Layout {
    /// The first terminal of the layout, unless an empty split stands in its
    /// place.
    pub open spec fn first(self) -> Option<Seq<char>>
        decreases self,
    {
        match self {
            Layout::Leaf { id } => Some(id),
            Layout::Group { children, .. } => if children.len() == 0 {
                None
            } else {
                children[0].first()
            },
        }
    }

    /// The layout without a terminal: emptied splits disappear and a split
    /// with one child left becomes that child.
    pub open spec fn without(self, id: Seq<char>) -> Option<Layout>
        decreases self,
    {
        match self {
            Layout::Leaf { id: own } => if own == id {
                None
            } else {
                Some(self)
            },
            Layout::Group { axis, children } => {
                let rest = all_without(children, id);
                if rest.len() == 0 {
                    None
                } else if rest.len() == 1 {
                    Some(rest[0])
                } else {
                    Some(Layout::Group { axis, children: rest })
                }
            },
        }
    }

    /// The layout with every leaf for `id` replaced by a split of it and a new
    /// terminal.
    pub open spec fn split(self, id: Seq<char>, new_id: Seq<char>, axis: SplitAxis) -> Layout
        decreases self,
    {
        match self {
            Layout::Leaf { id: own } => if own == id {
                Layout::Group { axis, children: seq![self, Layout::Leaf { id: new_id }] }
            } else {
                self
            },
            Layout::Group { axis: own, children } => Layout::Group {
                axis: own,
                children: all_split(children, id, new_id, axis),
            },
        }
    }
}

pub open spec fn all_without(list: Seq<Layout>, id: Seq<char>) -> Seq<Layout>
    decreases list,
{
    if list.len() == 0 {
        Seq::empty()
    } else {
        let rest = all_without(list.drop_last(), id);
        match list.last().without(id) {
            Some(layout) => rest.push(layout),
            None => rest,
        }
    }
}

pub open spec fn all_split(
    list: Seq<Layout>,
    id: Seq<char>,
    new_id: Seq<char>,
    axis: SplitAxis,
) -> Seq<Layout>
    decreases list,
{
    if list.len() == 0 {
        Seq::empty()
    } else {
        all_split(list.drop_last(), id, new_id, axis).push(list.last().split(id, new_id, axis))
    }
}

impl ViewLayout {
    /// The first terminal of the layout.
    pub fn first_terminal(&self) -> (id: String)
        requires
            self@.first() is Some,
        ensures
            Some(id@) == self@.first(),
        decreases self,
    {
        match self {
            ViewLayout::Terminal { terminal_id } => terminal_id.clone(),
            ViewLayout::Split { children, .. } => {
                proof {
                    layouts_facts(children@);
                }
                let child: &ViewLayout = &children[0];
                assert(layouts(children@)[0] == child@);
                child.first_terminal()
            },
        }
    }

    /// The terminals of the layout, in order.
    pub fn terminal_ids(&self) -> (ids: Vec<String>)
        ensures
            texts(ids@) == self@.ids(),
        decreases self,
    {
        match self {
            ViewLayout::Terminal { terminal_id } => {
                let mut ids: Vec<String> = Vec::new();
                ids.push(terminal_id.clone());
                assert(texts(ids@) =~= self@.ids());
                ids
            },
            ViewLayout::Split { children, .. } => {
                let mut ids: Vec<String> = Vec::new();
                let mut index: usize = 0;
                let ghost list = layouts(children@);
                proof {
                    layouts_facts(children@);
                    assert(list.take(0) =~= Seq::empty());
                    assert(texts(ids@) =~= Seq::empty());
                }
                while index < children.len()
                    invariant
                        index <= children@.len(),
                        list.len() == children@.len(),
                        forall|i: int|
                            0 <= i < children@.len() ==> #[trigger] list[i] == children@[i]@,
                        texts(ids@) == ids_of(list.take(index as int)),
                        decreases_to!(self => children),
                    decreases children@.len() - index,
                {
                    let child: &ViewLayout = &children[index];
                    let mut more = child.terminal_ids();
                    proof {
                        let taken = list.take(index + 1);
                        assert(taken.drop_last() =~= list.take(index as int));
                        assert(taken.last() == child@);
                        assert(texts(ids@ + more@) =~= texts(ids@) + texts(more@));
                    }
                    ids.append(&mut more);
                    index += 1;
                }
                assert(list.take(index as int) =~= list);
                ids
            },
        }
    }

    /// The layout without a terminal, or nothing when no terminal is left.
    pub fn remove_terminal(self, id: &str) -> (rest: Option<ViewLayout>)
        ensures
            match rest {
                Some(layout) => self@.without(id@) == Some(layout@),
                None => self@.without(id@) is None,
            },
    {
        self.reduced(id)
    }

    fn reduced(&self, id: &str) -> (rest: Option<ViewLayout>)
        ensures
            match rest {
                Some(layout) => self@.without(id@) == Some(layout@),
                None => self@.without(id@) is None,
            },
        decreases self,
    {
        match self {
            ViewLayout::Terminal { terminal_id } => if same_text(terminal_id.as_str(), id) {
                None
            } else {
                Some(self.clone())
            },
            ViewLayout::Split { axis, children } => {
                let mut kept: Vec<ViewLayout> = Vec::new();
                let mut index: usize = 0;
                let ghost list = layouts(children@);
                proof {
                    layouts_facts(children@);
                    assert(list.take(0) =~= Seq::empty());
                }
                while index < children.len()
                    invariant
                        index <= children@.len(),
                        list.len() == children@.len(),
                        forall|i: int|
                            0 <= i < children@.len() ==> #[trigger] list[i] == children@[i]@,
                        layouts(kept@) == all_without(list.take(index as int), id@),
                        decreases_to!(self => children),
                    decreases children@.len() - index,
                {
                    let child: &ViewLayout = &children[index];
                    proof {
                        let taken = list.take(index + 1);
                        assert(taken.drop_last() =~= list.take(index as int));
                        assert(taken.last() == child@);
                    }
                    match child.reduced(id) {
                        Some(layout) => {
                            let ghost before = kept@;
                            kept.push(layout);
                            assert(kept@.drop_last() =~= before);
                        },
                        None => {},
                    }
                    index += 1;
                }
                proof {
                    assert(list.take(index as int) =~= list);
                    layouts_facts(kept@);
                }
                if kept.len() == 0 {
                    None
                } else if kept.len() == 1 {
                    kept.pop()
                } else {
                    Some(ViewLayout::Split { axis: *axis, children: kept })
                }
            },
        }
    }

    /// Replaces a terminal by a split of it and a new terminal.
    pub fn split_terminal(&mut self, id: &str, new_id: &str, axis: SplitAxis)
        ensures
            final(self)@ == old(self)@.split(id@, new_id@, axis),
    {
        let split = self.divided(id, new_id, axis);
        *self = split;
    }

    fn divided(&self, id: &str, new_id: &str, axis: SplitAxis) -> (layout: ViewLayout)
        ensures
            layout@ == self@.split(id@, new_id@, axis),
        decreases self,
    {
        match self {
            ViewLayout::Terminal { terminal_id } => {
                if same_text(terminal_id.as_str(), id) {
                    let mut children: Vec<ViewLayout> = Vec::new();
                    children.push(self.clone());
                    children.push(ViewLayout::Terminal { terminal_id: new_id.to_owned() });
                    proof {
                        layouts_facts(children@);
                        assert(layouts(children@) =~= seq![
                            self@,
                            Layout::Leaf { id: new_id@ },
                        ]);
                    }
                    ViewLayout::Split { axis, children }
                } else {
                    self.clone()
                }
            },
            ViewLayout::Split { axis: own, children } => {
                let mut divided: Vec<ViewLayout> = Vec::new();
                let mut index: usize = 0;
                let ghost list = layouts(children@);
                proof {
                    layouts_facts(children@);
                    assert(list.take(0) =~= Seq::empty());
                }
                while index < children.len()
                    invariant
                        index <= children@.len(),
                        list.len() == children@.len(),
                        forall|i: int|
                            0 <= i < children@.len() ==> #[trigger] list[i] == children@[i]@,
                        layouts(divided@) == all_split(list.take(index as int), id@, new_id@, axis),
                        decreases_to!(self => children),
                    decreases children@.len() - index,
                {
                    let child: &ViewLayout = &children[index];
                    proof {
                        let taken = list.take(index + 1);
                        assert(taken.drop_last() =~= list.take(index as int));
                        assert(taken.last() == child@);
                    }
                    let ghost before = divided@;
                    divided.push(child.divided(id, new_id, axis));
                    assert(divided@.drop_last() =~= before);
                    index += 1;
                }
                assert(list.take(index as int) =~= list);
                ViewLayout::Split { axis: *own, children: divided }
            },
        }
    }
}

/// The texts of `ids` other than `id`.
pub open spec fn ids_without(ids: Seq<Seq<char>>, id: Seq<char>) -> Seq<Seq<char>>
    decreases ids.len(),
{
    if ids.len() == 0 {
        Seq::empty()
    } else {
        let rest = ids_without(ids.drop_last(), id);
        if ids.last() == id {
            rest
        } else {
            rest.push(ids.last())
        }
    }
}

/// `ids` with `new_id` after every occurrence of `id`.
pub open spec fn ids_split(
    ids: Seq<Seq<char>>,
    id: Seq<char>,
    new_id: Seq<char>,
) -> Seq<Seq<char>>
    decreases ids.len(),
{
    if ids.len() == 0 {
        Seq::empty()
    } else {
        let rest = ids_split(ids.drop_last(), id, new_id);
        if ids.last() == id {
            rest.push(id).push(new_id)
        } else {
            rest.push(ids.last())
        }
    }
}

proof fn ids_without_concat(a: Seq<Seq<char>>, b: Seq<Seq<char>>, id: Seq<char>)
    ensures
        ids_without(a + b, id) == ids_without(a, id) + ids_without(b, id),
    decreases b.len(),
{
    if b.len() == 0 {
        assert(a + b =~= a);
        assert(ids_without(a, id) + ids_without(b, id) =~= ids_without(a, id));
    } else {
        ids_without_concat(a, b.drop_last(), id);
        assert((a + b).drop_last() =~= a + b.drop_last());
        assert(ids_without(a + b, id) =~= ids_without(a, id) + ids_without(b, id));
    }
}

proof fn ids_split_concat(a: Seq<Seq<char>>, b: Seq<Seq<char>>, id: Seq<char>, new_id: Seq<char>)
    ensures
        ids_split(a + b, id, new_id) == ids_split(a, id, new_id) + ids_split(b, id, new_id),
    decreases b.len(),
{
    if b.len() == 0 {
        assert(a + b =~= a);
        assert(ids_split(a, id, new_id) + ids_split(b, id, new_id) =~= ids_split(a, id, new_id));
    } else {
        ids_split_concat(a, b.drop_last(), id, new_id);
        assert((a + b).drop_last() =~= a + b.drop_last());
        assert(ids_split(a + b, id, new_id) =~= ids_split(a, id, new_id) + ids_split(
            b,
            id,
            new_id,
        ));
    }
}

/// Removing a terminal takes exactly that terminal out of the layout and keeps
/// the order of the others.
pub proof fn removal_keeps_the_other_terminals(layout: Layout, id: Seq<char>)
    ensures
        match layout.without(id) {
            Some(rest) => rest.ids() == ids_without(layout.ids(), id),
            None => ids_without(layout.ids(), id) == Seq::<Seq<char>>::empty(),
        },
    decreases layout, 0int,
{
    match layout {
        Layout::Leaf { id: own } => {
            reveal_with_fuel(ids_without, 2);
            assert(layout.ids().drop_last() =~= Seq::empty());
            assert(ids_without(layout.ids(), id) =~= if own == id {
                Seq::empty()
            } else {
                seq![own]
            });
        },
        Layout::Group { axis, children } => {
            assert(children.take(children.len() as int) =~= children);
            removal_in_children(children, id, children.len() as int);
            let rest = all_without(children, id);
            if rest.len() == 1 {
                reveal_with_fuel(ids_of, 2);
                assert(rest.drop_last() =~= Seq::empty());
                assert(ids_of(rest) =~= rest[0].ids());
            }
        },
    }
}

proof fn removal_in_children(children: Seq<Layout>, id: Seq<char>, n: int)
    requires
        0 <= n <= children.len(),
    ensures
        ids_of(all_without(children.take(n), id)) == ids_without(ids_of(children.take(n)), id),
    decreases children, n,
{
    if n == 0 {
        assert(children.take(0) =~= Seq::empty());
    } else {
        let taken = children.take(n);
        assert(taken.drop_last() =~= children.take(n - 1));
        assert(taken.last() == children[n - 1]);
        removal_in_children(children, id, n - 1);
        removal_keeps_the_other_terminals(children[n - 1], id);
        ids_without_concat(ids_of(taken.drop_last()), taken.last().ids(), id);
        let rest = all_without(taken.drop_last(), id);
        match taken.last().without(id) {
            Some(layout) => {
                assert(rest.push(layout).drop_last() =~= rest);
            },
            None => {
                assert(ids_of(rest) + Seq::<Seq<char>>::empty() =~= ids_of(rest));
            },
        }
    }
}

/// Splitting a terminal puts the new terminal right after it and keeps every
/// other terminal in its place.
pub proof fn splitting_inserts_one_terminal(
    layout: Layout,
    id: Seq<char>,
    new_id: Seq<char>,
    axis: SplitAxis,
)
    ensures
        layout.split(id, new_id, axis).ids() == ids_split(layout.ids(), id, new_id),
    decreases layout, 0int,
{
    match layout {
        Layout::Leaf { id: own } => {
            reveal_with_fuel(ids_split, 2);
            assert(layout.ids().drop_last() =~= Seq::empty());
            if own == id {
                let children = seq![layout, Layout::Leaf { id: new_id }];
                assert(children.drop_last() =~= seq![layout]);
                assert(seq![layout].drop_last() =~= Seq::<Layout>::empty());
                reveal_with_fuel(ids_of, 3);
                assert(ids_of(children) =~= seq![id, new_id]);
                assert(ids_split(layout.ids(), id, new_id) =~= seq![id, new_id]);
            } else {
                assert(ids_split(layout.ids(), id, new_id) =~= seq![own]);
            }
        },
        Layout::Group { children, .. } => {
            assert(children.take(children.len() as int) =~= children);
            splitting_in_children(children, id, new_id, axis, children.len() as int);
        },
    }
}

proof fn splitting_in_children(
    children: Seq<Layout>,
    id: Seq<char>,
    new_id: Seq<char>,
    axis: SplitAxis,
    n: int,
)
    requires
        0 <= n <= children.len(),
    ensures
        ids_of(all_split(children.take(n), id, new_id, axis)) == ids_split(
            ids_of(children.take(n)),
            id,
            new_id,
        ),
    decreases children, n,
{
    if n == 0 {
        assert(children.take(0) =~= Seq::empty());
    } else {
        let taken = children.take(n);
        assert(taken.drop_last() =~= children.take(n - 1));
        assert(taken.last() == children[n - 1]);
        splitting_in_children(children, id, new_id, axis, n - 1);
        splitting_inserts_one_terminal(children[n - 1], id, new_id, axis);
        ids_split_concat(ids_of(taken.drop_last()), taken.last().ids(), id, new_id);
        let rest = all_split(taken.drop_last(), id, new_id, axis);
        let last = taken.last().split(id, new_id, axis);
        assert(rest.push(last).drop_last() =~= rest);
    }
}

impl Layout {
    /// Whether every split in the layout has at least two children.
    pub open spec fn branching(self) -> bool
        decreases self,
    {
        match self {
            Layout::Leaf { .. } => true,
            Layout::Group { children, .. } => children.len() >= 2 && all_branching(children),
        }
    }
}

pub open spec fn all_branching(list: Seq<Layout>) -> bool
    decreases list,
{
    list.len() > 0 ==> all_branching(list.drop_last()) && list.last().branching()
}

/// Removing the terminal that a split brought gives back the layout as it was.
pub proof fn removal_undoes_a_split(
    layout: Layout,
    id: Seq<char>,
    new_id: Seq<char>,
    axis: SplitAxis,
)
    requires
        layout.branching(),
        !layout.ids().contains(new_id),
    ensures
        layout.split(id, new_id, axis).without(new_id) == Some(layout),
    decreases layout, 0int,
{
    match layout {
        Layout::Leaf { id: own } => {
            assert(layout.ids()[0] == own);
            if own == id {
                let fresh = Layout::Leaf { id: new_id };
                let children = seq![layout, fresh];
                assert(children.drop_last() =~= seq![layout]);
                assert(seq![layout].drop_last() =~= Seq::<Layout>::empty());
                reveal_with_fuel(all_without, 3);
                assert(all_without(children, new_id) =~= seq![layout]);
            }
        },
        Layout::Group { axis: own, children } => {
            assert(children.take(children.len() as int) =~= children);
            removal_undoes_splits(children, id, new_id, axis, children.len() as int);
        },
    }
}

proof fn removal_undoes_splits(
    children: Seq<Layout>,
    id: Seq<char>,
    new_id: Seq<char>,
    axis: SplitAxis,
    n: int,
)
    requires
        0 <= n <= children.len(),
        all_branching(children.take(n)),
        !ids_of(children.take(n)).contains(new_id),
    ensures
        all_without(all_split(children.take(n), id, new_id, axis), new_id) == children.take(n),
    decreases children, n,
{
    let taken = children.take(n);
    if n == 0 {
        assert(taken =~= Seq::empty());
    } else {
        assert(taken.drop_last() =~= children.take(n - 1));
        assert(taken.last() == children[n - 1]);
        let before = ids_of(taken.drop_last());
        let own = taken.last().ids();
        assert forall|i: int| 0 <= i < before.len() implies before[i] != new_id by {
            assert((before + own)[i] == before[i]);
        }
        assert forall|i: int| 0 <= i < own.len() implies own[i] != new_id by {
            assert((before + own)[before.len() + i] == own[i]);
        }
        removal_undoes_splits(children, id, new_id, axis, n - 1);
        removal_undoes_a_split(children[n - 1], id, new_id, axis);
        let rest = all_split(taken.drop_last(), id, new_id, axis);
        let last = taken.last().split(id, new_id, axis);
        assert(rest.push(last).drop_last() =~= rest);
        assert(taken.drop_last().push(taken.last()) =~= taken);
    }
}

/// What is left after a removal needs no more room than the whole did, and no
/// split in it is empty.
pub proof fn removal_needs_no_more_room(layout: Layout, id: Seq<char>)
    ensures
        layout.without(id) matches Some(rest) ==> {
            &&& rest.minimum().0 <= layout.minimum().0
            &&& rest.minimum().1 <= layout.minimum().1
            &&& layout.inhabited() ==> rest.inhabited()
        },
    decreases layout, 0int,
{
    match layout {
        Layout::Leaf { .. } => {},
        Layout::Group { axis, children } => {
            let n = children.len() as int;
            assert(children.take(n) =~= children);
            removal_room_in_children(children, id, n);
            largest_is_positive(children);
            let rest = all_without(children, id);
            let whole = largest(children);
            if rest.len() == 1 {
                largest_bounds_each(rest, 0);
                if layout.inhabited() && !rest[0].inhabited() {
                    inhabited_at(rest, 0);
                }
                assert(whole.0 * n >= whole.0 && whole.1 * n >= whole.1) by (nonlinear_arith)
                    requires
                        n >= 1,
                        whole.0 >= 0,
                        whole.1 >= 0,
                ;
            } else if rest.len() > 1 {
                let less = largest(rest);
                let m = rest.len() as int;
                assert(less.0 * m <= whole.0 * n && less.1 * m <= whole.1 * n)
                    by (nonlinear_arith)
                    requires
                        0 <= m <= n,
                        0 <= less.0 <= whole.0,
                        0 <= less.1 <= whole.1,
                ;
            }
        },
    }
}

proof fn removal_room_in_children(children: Seq<Layout>, id: Seq<char>, n: int)
    requires
        0 <= n <= children.len(),
    ensures
        all_without(children.take(n), id).len() <= n,
        largest(all_without(children.take(n), id)).0 <= largest(children.take(n)).0,
        largest(all_without(children.take(n), id)).1 <= largest(children.take(n)).1,
        all_inhabited(children.take(n)) ==> all_inhabited(all_without(children.take(n), id)),
    decreases children, n,
{
    if n == 0 {
        assert(children.take(0) =~= Seq::empty());
    } else {
        let taken = children.take(n);
        assert(taken.drop_last() =~= children.take(n - 1));
        assert(taken.last() == children[n - 1]);
        removal_room_in_children(children, id, n - 1);
        removal_needs_no_more_room(children[n - 1], id);
        let rest = all_without(taken.drop_last(), id);
        match taken.last().without(id) {
            Some(layout) => {
                assert(rest.push(layout).drop_last() =~= rest);
            },
            None => {},
        }
    }
}

/// Removing a terminal leaves a layout without it, and without repeated
/// terminals if there were none.
pub proof fn removal_facts(ids: Seq<Seq<char>>, id: Seq<char>)
    ensures
        !ids_without(ids, id).contains(id),
        forall|other: Seq<char>|
            other != id ==> (#[trigger] ids_without(ids, id).contains(other) <==> ids.contains(
                other,
            )),
        ids.no_duplicates() ==> ids_without(ids, id).no_duplicates(),
    decreases ids.len(),
{
    if ids.len() > 0 {
        let head = ids.drop_last();
        let last = ids.last();
        removal_facts(head, id);
        let rest = ids_without(head, id);
        assert(head.push(last) =~= ids);
        assert forall|other: Seq<char>| other != id implies (#[trigger] ids_without(
            ids,
            id,
        ).contains(other) <==> ids.contains(other)) by {
            push_contains(head, last, other);
            push_contains(rest, last, other);
            assert(ids_without(head, id).contains(other) <==> head.contains(other));
        }
        if last != id {
            push_contains(rest, last, id);
            if ids.no_duplicates() {
                assert(head.no_duplicates());
                assert(!head.contains(last)) by {
                    if head.contains(last) {
                        let i = choose|i: int| 0 <= i < head.len() && head[i] == last;
                        assert(ids[i] == ids[ids.len() - 1]);
                    }
                }
                assert(!rest.contains(last));
                assert(rest.push(last).no_duplicates());
            }
        } else if ids.no_duplicates() {
            assert(head.no_duplicates());
        }
    }
}

pub proof fn push_contains(list: Seq<Seq<char>>, last: Seq<char>, other: Seq<char>)
    ensures
        list.push(last).contains(other) == (list.contains(other) || last == other),
{
    if list.contains(other) {
        let i = choose|i: int| 0 <= i < list.len() && list[i] == other;
        assert(list.push(last)[i] == other);
    }
    if last == other {
        assert(list.push(last)[list.len() as int] == other);
    }
    if list.push(last).contains(other) {
        let i = choose|i: int| 0 <= i < list.push(last).len() && list.push(last)[i] == other;
        if i < list.len() {
            assert(list[i] == other);
        }
    }
}

impl Pane {
    /// Whether two panes divide this one along an axis: along it the second
    /// stands one divider cell after the first, together they take all of its
    /// cells, and the first has at most one cell more; across it both reach
    /// from edge to edge.
    pub open spec fn divided_into(self, axis: SplitAxis, first: Pane, second: Pane) -> bool {
        match axis {
            SplitAxis::Horizontal => {
                &&& first.left == self.left
                &&& second.left == first.left + first.columns + 1
                &&& second.left + second.columns == self.left + self.columns
                &&& second.columns <= first.columns <= second.columns + 1
                &&& first.top == self.top && second.top == self.top
                &&& first.rows == self.rows && second.rows == self.rows
            },
            SplitAxis::Vertical => {
                &&& first.top == self.top
                &&& second.top == first.top + first.rows + 1
                &&& second.top + second.rows == self.top + self.rows
                &&& second.rows <= first.rows <= second.rows + 1
                &&& first.left == self.left && second.left == self.left
                &&& first.columns == self.columns && second.columns == self.columns
            },
        }
    }
}

/// Whether `after` holds the panes of `before`, each where it was, but that
/// pane `at`, which shows `id`, is divided along an axis into a pane for `id`
/// and one for `new_id`.
pub open spec fn divided_at(
    before: Seq<Pane>,
    after: Seq<Pane>,
    at: int,
    id: Seq<char>,
    new_id: Seq<char>,
    axis: SplitAxis,
) -> bool {
    &&& 0 <= at < before.len()
    &&& after.len() == before.len() + 1
    &&& forall|i: int| 0 <= i < at ==> #[trigger] after[i] == before[i]
    &&& forall|i: int| at + 1 < i < after.len() ==> #[trigger] after[i] == before[i - 1]
    &&& before[at].id == id
    &&& after[at].id == id
    &&& after[at + 1].id == new_id
    &&& before[at].divided_into(axis, after[at], after[at + 1])
}

/// Splitting a terminal keeps every other pane where it was and divides the
/// terminal's own rectangle along the axis: the new pane stands below it or to
/// its right, and the other two edges stay.
pub proof fn splitting_divides_one_pane(
    layout: Layout,
    id: Seq<char>,
    new_id: Seq<char>,
    axis: SplitAxis,
    left: int,
    top: int,
    columns: int,
    rows: int,
)
    requires
        layout.ids().no_duplicates(),
        layout.ids().contains(id),
    ensures
        exists|at: int| #[trigger]
            divided_at(
                layout.placed(left, top, columns, rows),
                layout.split(id, new_id, axis).placed(left, top, columns, rows),
                at,
                id,
                new_id,
                axis,
            ),
    decreases layout, 0int,
{
    match layout {
        Layout::Leaf { id: own } => {
            assert(layout.ids()[0] == own);
            assert(own == id);
            let fresh = Layout::Leaf { id: new_id };
            two_placed(axis, layout, fresh, left, top, columns, rows);
            let before = layout.placed(left, top, columns, rows);
            let after = layout.split(id, new_id, axis).placed(left, top, columns, rows);
            assert(after.len() == 2);
            assert(divided_at(before, after, 0, id, new_id, axis));
        },
        Layout::Group { axis: own, children } => {
            let count = children.len() as int;
            assert(children.take(count) =~= children);
            all_split_length(children, id, new_id, axis);
            splitting_divides_a_child(
                own,
                children,
                count,
                id,
                new_id,
                axis,
                left,
                top,
                columns,
                rows,
            );
            let split = layout.split(id, new_id, axis);
            assert(split == (Layout::Group {
                axis: own,
                children: all_split(children, id, new_id, axis),
            }));
            let before = layout.placed(left, top, columns, rows);
            let after = split.placed(left, top, columns, rows);
            assert(before == placed_children(own, children, count, left, top, columns, rows));
            assert(after == placed_children(
                own,
                all_split(children, id, new_id, axis),
                count,
                left,
                top,
                columns,
                rows,
            ));
            let at = choose|at: int| #[trigger] divided_at(before, after, at, id, new_id, axis);
            assert(divided_at(before, after, at, id, new_id, axis));
        },
    }
}

proof fn splitting_divides_a_child(
    own: SplitAxis,
    children: Seq<Layout>,
    n: int,
    id: Seq<char>,
    new_id: Seq<char>,
    axis: SplitAxis,
    left: int,
    top: int,
    columns: int,
    rows: int,
)
    requires
        0 <= n <= children.len(),
        ids_of(children.take(n)).no_duplicates(),
        ids_of(children.take(n)).contains(id),
    ensures
        exists|at: int| #[trigger]
            divided_at(
                placed_children(
                    own,
                    children.take(n),
                    children.len() as int,
                    left,
                    top,
                    columns,
                    rows,
                ),
                placed_children(
                    own,
                    all_split(children.take(n), id, new_id, axis),
                    children.len() as int,
                    left,
                    top,
                    columns,
                    rows,
                ),
                at,
                id,
                new_id,
                axis,
            ),
    decreases children, n,
{
    let taken = children.take(n);
    if n == 0 {
        assert(taken =~= Seq::empty());
        assert(ids_of(taken).len() == 0);
    } else {
        let count = children.len() as int;
        let index = n - 1;
        let child = children[index];
        let head = children.take(index);
        assert(taken.drop_last() =~= head);
        assert(taken.last() == child);
        let earlier = ids_of(head);
        let within = child.ids();
        let all = earlier + within;
        assert(ids_of(taken) == all);
        assert forall|i: int, j: int|
            0 <= i < earlier.len() && 0 <= j < earlier.len() && i != j implies earlier[i]
            != earlier[j] by {
            assert(all[i] == earlier[i] && all[j] == earlier[j]);
        }
        assert forall|i: int, j: int|
            0 <= i < within.len() && 0 <= j < within.len() && i != j implies within[i]
            != within[j] by {
            assert(all[earlier.len() + i] == within[i] && all[earlier.len() + j] == within[j]);
        }
        let at = choose|i: int| 0 <= i < all.len() && all[i] == id;
        let split_head = all_split(head, id, new_id, axis);
        let split_child = child.split(id, new_id, axis);
        let split = split_head.push(split_child);
        assert(all_split(taken, id, new_id, axis) == split);
        assert(split.drop_last() =~= split_head);
        all_split_length(head, id, new_id, axis);
        let x = match own {
            SplitAxis::Horizontal => left + offset(columns, count, index),
            SplitAxis::Vertical => left,
        };
        let y = match own {
            SplitAxis::Horizontal => top,
            SplitAxis::Vertical => top + offset(rows, count, index),
        };
        let w = match own {
            SplitAxis::Horizontal => extent(columns, count, index),
            SplitAxis::Vertical => columns,
        };
        let h = match own {
            SplitAxis::Horizontal => rows,
            SplitAxis::Vertical => extent(rows, count, index),
        };
        let first = placed_children(own, head, count, left, top, columns, rows);
        let first_after = placed_children(own, split_head, count, left, top, columns, rows);
        let last = child.placed(x, y, w, h);
        let last_after = split_child.placed(x, y, w, h);
        let before = placed_children(own, taken, count, left, top, columns, rows);
        let after = placed_children(own, split, count, left, top, columns, rows);
        assert(before == first + last);
        assert(after == first_after + last_after);
        if at < earlier.len() {
            assert(earlier[at] == id);
            splitting_divides_a_child(
                own,
                children,
                index,
                id,
                new_id,
                axis,
                left,
                top,
                columns,
                rows,
            );
            assert forall|j: int| 0 <= j < within.len() implies within[j] != id by {
                assert(all[earlier.len() + j] == within[j]);
            }
            split_elsewhere(child, id, new_id, axis);
            let k = choose|k: int| #[trigger]
                divided_at(first, first_after, k, id, new_id, axis);
            assert forall|i: int| k + 1 < i < after.len() implies #[trigger] after[i] == before[i
                - 1] by {
                if i < first_after.len() {
                    assert(first_after[i] == first[i - 1]);
                }
            }
            assert(divided_at(before, after, k, id, new_id, axis));
        } else {
            assert(within[at - earlier.len()] == id);
            splitting_divides_one_pane(child, id, new_id, axis, x, y, w, h);
            assert forall|j: int| 0 <= j < earlier.len() implies earlier[j] != id by {
                assert(all[j] == earlier[j]);
            }
            splits_elsewhere(children, id, new_id, axis, index);
            let k = choose|k: int| #[trigger]
                divided_at(last, last_after, k, id, new_id, axis);
            let m = first.len() as int;
            assert forall|i: int| m + k + 1 < i < after.len() implies #[trigger] after[i]
                == before[i - 1] by {
                assert(last_after[i - m] == last[i - m - 1]);
            }
            assert forall|i: int| 0 <= i < m + k implies #[trigger] after[i] == before[i] by {
                if i >= m {
                    assert(last_after[i - m] == last[i - m]);
                }
            }
            assert(divided_at(before, after, m + k, id, new_id, axis));
        }
    }
}

proof fn all_split_length(list: Seq<Layout>, id: Seq<char>, new_id: Seq<char>, axis: SplitAxis)
    ensures
        all_split(list, id, new_id, axis).len() == list.len(),
    decreases list.len(),
{
    if list.len() > 0 {
        all_split_length(list.drop_last(), id, new_id, axis);
    }
}

/// A layout that does not hold the terminal is not changed by a split of it.
proof fn split_elsewhere(layout: Layout, id: Seq<char>, new_id: Seq<char>, axis: SplitAxis)
    requires
        !layout.ids().contains(id),
    ensures
        layout.split(id, new_id, axis) == layout,
    decreases layout, 0int,
{
    match layout {
        Layout::Leaf { id: own } => {
            assert(layout.ids()[0] == own);
        },
        Layout::Group { children, .. } => {
            assert(children.take(children.len() as int) =~= children);
            splits_elsewhere(children, id, new_id, axis, children.len() as int);
        },
    }
}

proof fn splits_elsewhere(
    children: Seq<Layout>,
    id: Seq<char>,
    new_id: Seq<char>,
    axis: SplitAxis,
    n: int,
)
    requires
        0 <= n <= children.len(),
        !ids_of(children.take(n)).contains(id),
    ensures
        all_split(children.take(n), id, new_id, axis) == children.take(n),
    decreases children, n,
{
    let taken = children.take(n);
    if n == 0 {
        assert(taken =~= Seq::empty());
    } else {
        assert(taken.drop_last() =~= children.take(n - 1));
        assert(taken.last() == children[n - 1]);
        let before = ids_of(taken.drop_last());
        let own = taken.last().ids();
        assert forall|i: int| 0 <= i < before.len() implies before[i] != id by {
            assert((before + own)[i] == before[i]);
        }
        assert forall|i: int| 0 <= i < own.len() implies own[i] != id by {
            assert((before + own)[before.len() + i] == own[i]);
        }
        splits_elsewhere(children, id, new_id, axis, n - 1);
        split_elsewhere(children[n - 1], id, new_id, axis);
        assert(taken.drop_last().push(taken.last()) =~= taken);
    }
}

/// Two layouts in one split along the horizontal axis stand side by side: they
/// share the columns, but for one divider column, as evenly as can be, and
/// each spans all rows of the canvas. Each fits where the two fit together.
pub proof fn beside_each_other(
    first: Layout,
    second: Layout,
    left: int,
    top: int,
    columns: int,
    rows: int,
) -> (width: int)
    requires
        columns >= 1,
    ensures
        columns - width - 1 <= width <= columns - width,
        (Layout::Group {
            axis: SplitAxis::Horizontal,
            children: seq![first, second],
        }).placed(left, top, columns, rows) == first.placed(left, top, width, rows)
            + second.placed(left + width + 1, top, columns - width - 1, rows),
        (Layout::Group { axis: SplitAxis::Horizontal, children: seq![first, second] }).fits(
            columns,
            rows,
        ) ==> 2 <= width && first.fits(width, rows) && second.fits(columns - width - 1, rows),
        first.inhabited() && second.inhabited() ==> (Layout::Group {
            axis: SplitAxis::Horizontal,
            children: seq![first, second],
        }).inhabited(),
{
    let children = seq![first, second];
    let whole = Layout::Group { axis: SplitAxis::Horizontal, children };
    two_placed(SplitAxis::Horizontal, first, second, left, top, columns, rows);
    let one = seq![first];
    assert(children.drop_last() =~= one);
    assert(one.drop_last() =~= Seq::<Layout>::empty());
    assert(children.last() == second && one.last() == first);
    assert(all_inhabited(Seq::<Layout>::empty()));
    assert(first.inhabited() ==> all_inhabited(one));
    if whole.fits(columns, rows) {
        let need = largest(children).0 as int;
        largest_is_positive(children);
        largest_bounds_each(children, 0);
        largest_bounds_each(children, 1);
        extents_suffice(columns, 2, need, 0);
        extents_suffice(columns, 2, need, 1);
        assert(extent(columns, 2, 1) == columns - extent(columns, 2, 0) - 1);
    }
    extent(columns, 2, 0)
}

/// Where a split of two layouts places them.
proof fn two_placed(
    axis: SplitAxis,
    first: Layout,
    second: Layout,
    left: int,
    top: int,
    columns: int,
    rows: int,
)
    ensures
        (Layout::Group { axis, children: seq![first, second] }).placed(left, top, columns, rows)
            == match axis {
            SplitAxis::Horizontal => first.placed(left, top, extent(columns, 2, 0), rows)
                + second.placed(
                left + extent(columns, 2, 0) + 1,
                top,
                columns - extent(columns, 2, 0) - 1,
                rows,
            ),
            SplitAxis::Vertical => first.placed(left, top, columns, extent(rows, 2, 0))
                + second.placed(
                left,
                top + extent(rows, 2, 0) + 1,
                columns,
                rows - extent(rows, 2, 0) - 1,
            ),
        },
{
    let children = seq![first, second];
    let one = seq![first];
    let none = Seq::<Layout>::empty();
    assert(children.drop_last() =~= one);
    assert(one.drop_last() =~= none);
    assert(children.last() == second);
    assert(one.last() == first);
    assert(offset(columns, 2, 0) == 0 && offset(rows, 2, 0) == 0);
    assert(offset(columns, 2, 1) == extent(columns, 2, 0) + 1);
    assert(offset(rows, 2, 1) == extent(rows, 2, 0) + 1);
    assert(extent(columns, 2, 1) == columns - extent(columns, 2, 0) - 1);
    assert(extent(rows, 2, 1) == rows - extent(rows, 2, 0) - 1);
    assert(placed_children(axis, none, 2, left, top, columns, rows) =~= Seq::empty());
    let head = placed_children(axis, one, 2, left, top, columns, rows);
    match axis {
        SplitAxis::Horizontal => {
            assert(head =~= first.placed(left, top, extent(columns, 2, 0), rows));
        },
        SplitAxis::Vertical => {
            assert(head =~= first.placed(left, top, columns, extent(rows, 2, 0)));
        },
    }
    assert(placed_children(axis, children, 2, left, top, columns, rows) == head + match axis {
        SplitAxis::Horizontal => second.placed(
            left + offset(columns, 2, 1),
            top,
            extent(columns, 2, 1),
            rows,
        ),
        SplitAxis::Vertical => second.placed(
            left,
            top + offset(rows, 2, 1),
            columns,
            extent(rows, 2, 1),
        ),
    });
}

proof fn largest_is_least(list: Seq<Layout>, columns: int, rows: int)
    requires
        columns >= 2,
        rows >= 1,
        forall|i: int| 0 <= i < list.len() ==> (#[trigger] list[i]).fits(columns, rows),
    ensures
        largest(list).0 <= columns,
        largest(list).1 <= rows,
    decreases list.len(),
{
    if list.len() > 0 {
        let head = list.drop_last();
        assert forall|i: int| 0 <= i < head.len() implies (#[trigger] head[i]).fits(
            columns,
            rows,
        ) by {
            assert(list[i] == head[i]);
        }
        largest_is_least(head, columns, rows);
        assert(list[list.len() - 1].fits(columns, rows));
    }
}

/// A terminal needs two columns and a row. A split has room exactly where each
/// of its children has room on an equal share of the axis, without the divider
/// cells, and on the whole of the other one.
pub proof fn room_is_shared_equally(axis: SplitAxis, children: Seq<Layout>, columns: int, rows: int)
    requires
        children.len() > 0,
    ensures
        forall|id: Seq<char>| #[trigger]
            (Layout::Leaf { id }).fits(columns, rows) <==> columns >= 2 && rows >= 1,
        ({
            let n = children.len() as int;
            let width = match axis {
                SplitAxis::Horizontal => (columns - (n - 1)) / n,
                SplitAxis::Vertical => columns,
            };
            let height = match axis {
                SplitAxis::Horizontal => rows,
                SplitAxis::Vertical => (rows - (n - 1)) / n,
            };
            (Layout::Group { axis, children }).fits(columns, rows) <==> width >= 2 && height >= 1
                && forall|i: int|
                0 <= i < n ==> (#[trigger] children[i]).fits(width, height)
        }),
{
    let n = children.len() as int;
    let need = largest(children);
    let width = match axis {
        SplitAxis::Horizontal => (columns - (n - 1)) / n,
        SplitAxis::Vertical => columns,
    };
    let height = match axis {
        SplitAxis::Horizontal => rows,
        SplitAxis::Vertical => (rows - (n - 1)) / n,
    };
    largest_is_positive(children);
    match axis {
        SplitAxis::Horizontal => {
            assert(need.0 * n + n - 1 <= columns <==> need.0 <= (columns - (n - 1)) / n)
                by (nonlinear_arith)
                requires
                    n >= 1,
                    need.0 >= 0,
            ;
        },
        SplitAxis::Vertical => {
            assert(need.1 * n + n - 1 <= rows <==> need.1 <= (rows - (n - 1)) / n)
                by (nonlinear_arith)
                requires
                    n >= 1,
                    need.1 >= 0,
            ;
        },
    }
    if (Layout::Group { axis, children }).fits(columns, rows) {
        assert forall|i: int| 0 <= i < n implies (#[trigger] children[i]).fits(width, height) by {
            largest_bounds_each(children, i);
        }
    }
    if width >= 2 && height >= 1 && forall|i: int|
        0 <= i < n ==> (#[trigger] children[i]).fits(width, height) {
        largest_is_least(children, width, height);
    }
}

} // verus!
