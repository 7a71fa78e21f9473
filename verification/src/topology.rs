//! Sessions, the views they show, and the terminals arranged in those views.
//!
//! Every terminal belongs to exactly one session and stands exactly once in
//! the layout of that session's view. The operations here move terminals
//! between sessions and keep that so.
use vstd::prelude::*;
use vstd::string::*;

use crate::ids::{hyphenated, random_id};
use crate::layout::{
    beside_each_other, divided_at, geometry_problem, ids_of, ids_without, layouts, layouts_facts,
    pane_ids, panes_of, panes_tile_the_canvas, removal_facts, removal_keeps_the_other_terminals,
    removal_needs_no_more_room, splitting_divides_one_pane, Layout, Pane, PaneGeometry, SplitAxis,
    ViewLayout,
};
use crate::lease::{AttachmentLeaseRegistry, Leases};
use crate::manager::{name_refused, SessionManagerError};
use crate::names::{
    contains_in_either, holds_text, name_given, remaining_texts, reserving_and_releasing,
    without_text, NameError, NameRegistry, Names,
};
use crate::proto::{LeaseKind, TerminalSize};
use crate::terminal::usable_size;
use crate::text::{same_text, texts};
use crate::textmap::TextMap;

verus! {

/// What is wrong with a layout as such, if anything: too many terminals, too
/// deep nesting, or a group that is too small or too large.
pub open spec fn layout_problem(layout: Layout, depth: nat) -> Option<Seq<char>>
    decreases layout,
{
    if depth == 0 && layout.ids().len() > 64 {
        Some("a view supports at most 64 terminals"@)
    } else if depth > 16 {
        Some("layout nesting exceeds 16"@)
    } else {
        match layout {
            Layout::Leaf { .. } => None,
            Layout::Group { children, .. } => if children.len() < 2 || children.len() > 64 {
                Some("layout groups require 2 to 64 children"@)
            } else {
                first_problem(children, depth + 1)
            },
        }
    }
}

/// The first problem among layouts, in order.
pub open spec fn first_problem(list: Seq<Layout>, depth: nat) -> Option<Seq<char>>
    decreases list,
{
    if list.len() == 0 {
        None
    } else {
        match first_problem(list.drop_last(), depth) {
            Some(problem) => Some(problem),
            None => layout_problem(list.last(), depth),
        }
    }
}

/// Checks a layout as such.
pub fn validate_layout(layout: &ViewLayout, depth: usize) -> (result: Result<
    (),
    SessionManagerError,
>)
    ensures
        match result {
            Ok(_) => layout_problem(layout@, depth as nat) is None,
            Err(error) => error matches SessionManagerError::InvalidView(message)
                && layout_problem(layout@, depth as nat) == Some(message@),
        },
    decreases layout,
{
    if depth == 0 {
        let ids = layout.terminal_ids();
        assert(texts(ids@).len() == ids@.len());
        if ids.len() > 64 {
            return Err(
                SessionManagerError::InvalidView("a view supports at most 64 terminals".to_owned()),
            );
        }
    }
    if depth > 16 {
        return Err(SessionManagerError::InvalidView("layout nesting exceeds 16".to_owned()));
    }
    match layout {
        ViewLayout::Terminal { .. } => Ok(()),
        ViewLayout::Split { children, .. } => {
            proof {
                layouts_facts(children@);
            }
            if children.len() < 2 || children.len() > 64 {
                return Err(
                    SessionManagerError::InvalidView(
                        "layout groups require 2 to 64 children".to_owned(),
                    ),
                );
            }
            let mut index: usize = 0;
            let ghost list = layouts(children@);
            assert(list.take(0) =~= Seq::empty());
            while index < children.len()
                invariant
                    index <= children@.len(),
                    depth <= 16,
                    list == layouts(children@),
                    list.len() == children@.len(),
                    2 <= list.len() <= 64,
                    layout_problem(layout@, depth as nat) == first_problem(list, depth as nat + 1),
                    forall|i: int|
                        0 <= i < children@.len() ==> #[trigger] list[i] == children@[i]@,
                    first_problem(list.take(index as int), depth as nat + 1) is None,
                    decreases_to!(layout => children),
                decreases children@.len() - index,
            {
                let child: &ViewLayout = &children[index];
                let result = validate_layout(child, depth + 1);
                proof {
                    let taken = list.take(index + 1);
                    assert(taken.drop_last() =~= list.take(index as int));
                    assert(taken.last() == child@);
                    first_problem_of_prefix(list, depth as nat + 1, index + 1);
                }
                match result {
                    Ok(_) => {},
                    Err(error) => {
                        return Err(error);
                    },
                }
                index += 1;
            }
            assert(list.take(index as int) =~= list);
            Ok(())
        },
    }
}

proof fn first_problem_of_prefix(list: Seq<Layout>, depth: nat, n: int)
    requires
        0 <= n <= list.len(),
    ensures
        first_problem(list.take(n), depth) is Some ==> first_problem(list, depth) == first_problem(
            list.take(n),
            depth,
        ),
    decreases list.len(),
{
    if n == list.len() {
        assert(list.take(n) =~= list);
    } else {
        first_problem_of_prefix(list.drop_last(), depth, n);
        assert(list.drop_last().take(n) =~= list.take(n));
    }
}

/// Which session a terminal belongs to.
#[derive(Debug, PartialEq, Eq)]
pub struct TerminalOwner {
    pub created_at_ms: u64,
    pub session_id: String,
    pub view_id: String,
    pub name: String,
}

impl Clone for TerminalOwner {
    fn clone(&self) -> (copy: Self)
        ensures
            copy == *self,
    {
        TerminalOwner {
            created_at_ms: self.created_at_ms,
            session_id: self.session_id.clone(),
            view_id: self.view_id.clone(),
            name: self.name.clone(),
        }
    }
}

/// The mathematical content of a [`TerminalOwner`].
pub struct Owner {
    pub created_at_ms: u64,
    pub session: Seq<char>,
    pub view: Seq<char>,
    pub name: Seq<char>,
}

impl View for TerminalOwner {
    type V = Owner;

    open spec fn view(&self) -> Owner {
        Owner {
            created_at_ms: self.created_at_ms,
            session: self.session_id@,
            view: self.view_id@,
            name: self.name@,
        }
    }
}

/// A terminal as the views know it.
pub struct TerminalRecord {
    pub name: String,
    /// Whether the terminal runs a managed task; those stay where they are.
    pub managed: bool,
    pub owner: TerminalOwner,
    pub created_at_ms: u64,
    pub next_sequence: u64,
    pub terminal_size: TerminalSize,
    pub attachment_ids: Vec<String>,
}

/// The mathematical content of a [`TerminalRecord`].
pub struct Pty {
    pub name: Seq<char>,
    pub managed: bool,
    pub owner: Owner,
    pub created_at_ms: u64,
    pub next_sequence: u64,
    pub size: TerminalSize,
    pub attachments: Seq<Seq<char>>,
}

impl View for TerminalRecord {
    type V = Pty;

    open spec fn view(&self) -> Pty {
        Pty {
            name: self.name@,
            managed: self.managed,
            owner: self.owner@,
            created_at_ms: self.created_at_ms,
            next_sequence: self.next_sequence,
            size: self.terminal_size,
            attachments: texts(self.attachment_ids@),
        }
    }
}

/// A session with its view.
pub struct SessionRoot {
    pub closing: bool,
    pub name: String,
    pub view_id: String,
    pub revision: u64,
    pub layout: ViewLayout,
    pub canvas_size: TerminalSize,
    pub leases: AttachmentLeaseRegistry,
}

/// The mathematical content of a [`SessionRoot`].
pub struct Root {
    pub closing: bool,
    pub name: Seq<char>,
    pub view: Seq<char>,
    pub revision: u64,
    pub layout: Layout,
    pub canvas: TerminalSize,
    pub leases: Leases,
}

impl View for SessionRoot {
    type V = Root;

    open spec fn view(&self) -> Root {
        Root {
            closing: self.closing,
            name: self.name@,
            view: self.view_id@,
            revision: self.revision,
            layout: self.layout@,
            canvas: self.canvas_size,
            leases: self.leases@,
        }
    }
}

pub type Roots = Map<Seq<char>, Root>;

pub type Ptys = Map<Seq<char>, Pty>;

/// Whether a session's view is in order: its layout fits its canvas, names no
/// terminal twice, and names only terminals that belong to the session.
pub open spec fn root_in_order(id: Seq<char>, root: Root, terminals: Ptys) -> bool {
    &&& root.layout.inhabited()
    &&& root.layout.fits(root.canvas.columns as int, root.canvas.rows as int)
    &&& root.layout.ids().no_duplicates()
    &&& forall|terminal: Seq<char>| #[trigger]
        root.layout.ids().contains(terminal) ==> {
            &&& terminals.dom().contains(terminal)
            &&& terminals[terminal].owner.session == id
        }
}

/// Whether every terminal stands in the layout of the session it belongs to.
pub open spec fn placed_in_owner(sessions: Roots, terminals: Ptys) -> bool {
    forall|terminal: Seq<char>| #[trigger]
        terminals.dom().contains(terminal) ==> {
            let owner = terminals[terminal].owner.session;
            &&& sessions.dom().contains(owner)
            &&& sessions[owner].layout.ids().contains(terminal)
            &&& usable_size(terminals[terminal].size)
        }
}

/// The arrangement of all terminals is in order.
pub open spec fn well_arranged(sessions: Roots, terminals: Ptys) -> bool {
    &&& forall|id: Seq<char>| #[trigger]
        sessions.dom().contains(id) ==> root_in_order(id, sessions[id], terminals)
    &&& placed_in_owner(sessions, terminals)
    &&& forall|a: Seq<char>, b: Seq<char>|
        #[trigger] sessions.dom().contains(a) && #[trigger] sessions.dom().contains(b) && a != b
            ==> sessions[a].name != sessions[b].name
}

/// In a good arrangement no terminal stands in two sessions.
pub proof fn a_terminal_stands_in_one_session(
    sessions: Roots,
    terminals: Ptys,
    a: Seq<char>,
    b: Seq<char>,
    terminal: Seq<char>,
)
    requires
        well_arranged(sessions, terminals),
        sessions.dom().contains(a),
        sessions.dom().contains(b),
        sessions[a].layout.ids().contains(terminal),
        sessions[b].layout.ids().contains(terminal),
    ensures
        a == b,
{
    assert(root_in_order(a, sessions[a], terminals));
    assert(root_in_order(b, sessions[b], terminals));
}

/// Whether a selector finds a session: by identifier first, then by name.
pub open spec fn root_selected(sessions: Roots, selector: Seq<char>, id: Seq<char>) -> bool {
    &&& sessions.dom().contains(id)
    &&& if sessions.dom().contains(selector) {
        id == selector
    } else {
        sessions[id].name == selector
    }
}

/// Whether no session answers to a selector.
pub open spec fn root_missing(sessions: Roots, selector: Seq<char>) -> bool {
    &&& !sessions.dom().contains(selector)
    &&& forall|id: Seq<char>| #[trigger]
        sessions.dom().contains(id) ==> sessions[id].name != selector
}

/// What a client is told of one terminal of a view.
#[derive(Debug, PartialEq, Eq)]
pub struct TerminalInfo {
    pub terminal_id: String,
    pub name: String,
    pub created_at_ms: u64,
    pub next_sequence: u64,
    pub terminal_size: TerminalSize,
}

/// What a client is told of a view.
#[derive(Debug, PartialEq, Eq)]
pub struct ViewInfo {
    pub session_name: String,
    pub session_id: String,
    pub view_id: String,
    pub revision: u64,
    pub canvas_size: TerminalSize,
    pub panes: Vec<PaneGeometry>,
    pub layout: ViewLayout,
    pub terminals: Vec<TerminalInfo>,
}

/// Whether a terminal's description is right.
pub open spec fn describes(info: TerminalInfo, id: Seq<char>, terminal: Pty) -> bool {
    &&& info.terminal_id@ == id
    &&& info.name@ == terminal.name
    &&& info.created_at_ms == terminal.created_at_ms
    &&& info.next_sequence == terminal.next_sequence
    &&& info.terminal_size == terminal.size
}

/// Whether a view's description is right: the panes of its layout on its
/// canvas, and every terminal in the order of the layout.
pub open spec fn shows(info: ViewInfo, id: Seq<char>, root: Root, terminals: Ptys) -> bool {
    &&& info.session_name@ == root.name
    &&& info.session_id@ == id
    &&& info.view_id@ == root.view
    &&& info.revision == root.revision
    &&& info.canvas_size == root.canvas
    &&& info.layout@ == root.layout
    &&& panes_of(info.panes@) == root.layout.placed(
        0,
        0,
        root.canvas.columns as int,
        root.canvas.rows as int,
    )
    &&& info.terminals@.len() == root.layout.ids().len()
    &&& forall|i: int|
        0 <= i < info.terminals@.len() ==> describes(
            #[trigger] info.terminals@[i],
            root.layout.ids()[i],
            terminals[root.layout.ids()[i]],
        )
}

/// A change of one terminal's grid that the PTY has to take.
#[derive(Debug, PartialEq, Eq)]
pub struct PtyResize {
    pub terminal_id: String,
    pub terminal_size: TerminalSize,
}

/// Whether a list of resizes follows the panes of a layout.
pub open spec fn follows(resizes: Seq<PtyResize>, layout: Layout, canvas: TerminalSize) -> bool {
    let panes = layout.placed(0, 0, canvas.columns as int, canvas.rows as int);
    &&& resizes.len() == panes.len()
    &&& forall|i: int|
        0 <= i < resizes.len() ==> {
            let size = (#[trigger] resizes[i]).terminal_size;
            &&& resizes[i].terminal_id@ == panes[i].id
            &&& size.columns == panes[i].columns
            &&& size.rows == panes[i].rows
            &&& size.pixel_width == (canvas.pixel_width as nat * panes[i].columns as nat)
                / canvas.columns as nat
            &&& size.pixel_height == (canvas.pixel_height as nat * panes[i].rows as nat)
                / canvas.rows as nat
        }
}

/// A changed view: which session it is, and the grids its terminals get.
pub struct ViewChange {
    pub session_id: String,
    pub resizes: Vec<PtyResize>,
}

/// Whether an error is a complaint about a view.
pub open spec fn view_refused(error: SessionManagerError, message: Seq<char>) -> bool {
    error matches SessionManagerError::InvalidView(text) && text@ == message
}

pub open spec fn not_found(error: SessionManagerError, selector: Seq<char>) -> bool {
    error matches SessionManagerError::NotFound { selector: missing } && missing@ == selector
}

/// Whether two lists name the same terminals, each once.
pub open spec fn same_terminals(a: Seq<Seq<char>>, b: Seq<Seq<char>>) -> bool {
    &&& a.len() == b.len()
    &&& a.no_duplicates()
    &&& forall|i: int| 0 <= i < a.len() ==> b.contains(#[trigger] a[i])
}

/// All sessions and terminals.
pub struct SessionRegistry {
    sessions: TextMap<SessionRoot>,
    terminals: TextMap<TerminalRecord>,
    names: NameRegistry,
}

impl SessionRegistry {
    pub closed spec fn sessions(&self) -> Roots {
        self.sessions@
    }

    pub closed spec fn terminals(&self) -> Ptys {
        self.terminals@
    }

    pub closed spec fn names(&self) -> Names {
        self.names@
    }

    pub closed spec fn wf(&self) -> bool {
        &&& self.sessions.wf()
        &&& self.terminals.wf()
        &&& well_arranged(self.sessions@, self.terminals@)
        &&& forall|id: Seq<char>| #[trigger]
            self.sessions@.dom().contains(id) ==> !self.names@.pending.contains(
                self.sessions@[id].name,
            )
    }

    /// What every well-formed registry keeps.
    pub proof fn terminals_are_well_arranged(&self)
        requires
            self.wf(),
        ensures
            well_arranged(self.sessions(), self.terminals()),
    {
    }

    pub fn new() -> (registry: Self)
        ensures
            registry.wf(),
            registry.sessions() == Roots::empty(),
            registry.terminals() == Ptys::empty(),
            registry.names() == (Names { pending: Seq::empty(), next: Some(1) }),
    {
        SessionRegistry {
            sessions: TextMap::new(),
            terminals: TextMap::new(),
            names: NameRegistry::default(),
        }
    }

    /// Finds a session by identifier, or else by name.
    pub fn root(&self, selector: &str) -> (result: Result<String, SessionManagerError>)
        requires
            self.wf(),
        ensures
            match result {
                Ok(id) => root_selected(self.sessions(), selector@, id@),
                Err(error) => not_found(error, selector@) && root_missing(
                    self.sessions(),
                    selector@,
                ),
            },
    {
        if self.sessions.contains(selector) {
            return Ok(selector.to_owned());
        }
        let mut index: usize = 0;
        proof {
            self.sessions.listing_is_complete();
        }
        while index < self.sessions.len()
            invariant
                index <= self.sessions.listed().len(),
                self.wf(),
                !self.sessions@.dom().contains(selector@),
                forall|i: int|
                    0 <= i < self.sessions.listed().len() ==> self.sessions@.dom().contains(
                        (#[trigger] self.sessions.listed()[i]).0,
                    ) && self.sessions@[self.sessions.listed()[i].0]
                        == self.sessions.listed()[i].1,
                forall|key: Seq<char>| #[trigger]
                    self.sessions@.dom().contains(key) ==> exists|i: int|
                        0 <= i < self.sessions.listed().len() && (
                        #[trigger] self.sessions.listed()[i]).0 == key,
                forall|i: int|
                    0 <= i < index ==> (#[trigger] self.sessions.listed()[i]).1.name != selector@,
            decreases self.sessions.listed().len() - index,
        {
            let (id, root) = self.sessions.entry(index);
            assert(self.sessions@.dom().contains(self.sessions.listed()[index as int].0));
            if same_text(root.name.as_str(), selector) {
                return Ok(id.clone());
            }
            index += 1;
        }
        proof {
            assert forall|id: Seq<char>| #[trigger] self.sessions@.dom().contains(
                id,
            ) implies self.sessions@[id].name != selector@ by {
                let i = choose|i: int|
                    0 <= i < self.sessions.listed().len() && (
                    #[trigger] self.sessions.listed()[i]).0 == id;
                assert(self.sessions.listed()[i].1.name != selector@);
            }
        }
        Err(SessionManagerError::NotFound { selector: selector.to_owned() })
    }

    /// Describes the view of a session.
    pub fn view_info(&self, selector: &str) -> (result: Result<ViewInfo, SessionManagerError>)
        requires
            self.wf(),
        ensures
            match result {
                Ok(info) => {
                    &&& root_selected(self.sessions(), selector@, info.session_id@)
                    &&& shows(
                        info,
                        info.session_id@,
                        self.sessions()[info.session_id@],
                        self.terminals(),
                    )
                },
                Err(error) => not_found(error, selector@) && root_missing(
                    self.sessions(),
                    selector@,
                ),
            },
    {
        let session_id = match self.root(selector) {
            Ok(id) => id,
            Err(error) => {
                return Err(error);
            },
        };
        let root = match self.sessions.get(session_id.as_str()) {
            Some(root) => root,
            None => {
                assert(false);
                return Err(SessionManagerError::NotFound { selector: selector.to_owned() });
            },
        };
        assert(root_in_order(session_id@, root@, self.terminals@));
        let ids = root.layout.terminal_ids();
        let mut terminals: Vec<TerminalInfo> = Vec::new();
        let mut index: usize = 0;
        while index < ids.len()
            invariant
                index <= ids@.len(),
                self.wf(),
                texts(ids@) == root@.layout.ids(),
                root_in_order(session_id@, root@, self.terminals@),
                terminals@.len() == index,
                forall|i: int|
                    0 <= i < index ==> describes(
                        #[trigger] terminals@[i],
                        root@.layout.ids()[i],
                        self.terminals@[root@.layout.ids()[i]],
                    ),
            decreases ids@.len() - index,
        {
            assert(texts(ids@)[index as int] == ids@[index as int]@);
            assert(root@.layout.ids().contains(ids@[index as int]@));
            match self.terminals.get(ids[index].as_str()) {
                Some(terminal) => {
                    terminals.push(
                        TerminalInfo {
                            terminal_id: ids[index].clone(),
                            name: terminal.name.clone(),
                            created_at_ms: terminal.created_at_ms,
                            next_sequence: terminal.next_sequence,
                            terminal_size: terminal.terminal_size,
                        },
                    );
                },
                None => {
                    assert(false);
                },
            }
            index += 1;
        }
        assert(texts(ids@).len() == ids@.len());
        match root.layout.pane_geometry(&root.canvas_size) {
            Ok(panes) => Ok(
                ViewInfo {
                    session_name: root.name.clone(),
                    session_id,
                    view_id: root.view_id.clone(),
                    revision: root.revision,
                    canvas_size: root.canvas_size,
                    panes,
                    layout: root.layout.clone(),
                    terminals,
                },
            ),
            Err(message) => Err(SessionManagerError::InvalidView(message)),
        }
    }

    /// The grids that the terminals of a session get on a canvas.
    ///
    /// Refuses a canvas that is too small for the layout.
    pub fn plan_resize(&self, session_id: &str, size: TerminalSize) -> (result: Result<
        Vec<PtyResize>,
        String,
    >)
        requires
            self.wf(),
            self.sessions().dom().contains(session_id@),
        ensures
            ({
                let layout = self.sessions()[session_id@].layout;
                &&& result is Ok <==> layout.fits(size.columns as int, size.rows as int)
                &&& match result {
                    Ok(resizes) => follows(resizes@, layout, size),
                    Err(message) => message@ == geometry_problem(layout, size),
                }
            }),
    {
        match self.sessions.get(session_id) {
            Some(root) => {
                assert(root_in_order(session_id@, root@, self.terminals@));
                resizes_of(&root.layout, size)
            },
            None => {
                assert(false);
                Ok(Vec::new())
            },
        }
    }

    /// Notes the canvas that a session's terminals were fitted to.
    pub fn set_canvas(&mut self, session_id: &str, size: TerminalSize)
        requires
            old(self).wf(),
            old(self).sessions().dom().contains(session_id@),
            old(self).sessions()[session_id@].layout.fits(size.columns as int, size.rows as int),
            old(self).sessions()[session_id@].revision < u64::MAX,
        ensures
            final(self).wf(),
            final(self).terminals() == old(self).terminals(),
            final(self).names() == old(self).names(),
            ({
                let root = old(self).sessions()[session_id@];
                final(self).sessions() == if root.canvas == size {
                    old(self).sessions()
                } else {
                    old(self).sessions().insert(
                        session_id@,
                        Root { canvas: size, revision: (root.revision + 1) as u64, ..root },
                    )
                }
            }),
    {
        let ghost before = self.sessions@;
        match self.sessions.take(session_id) {
            Some(mut root) => {
                assert(root_in_order(session_id@, root@, self.terminals@));
                if root.canvas_size != size {
                    root.canvas_size = size;
                    root.revision = root.revision + 1;
                }
                let ghost changed = root@;
                self.sessions.put(session_id, root);
                proof {
                    assert(self.sessions@ =~= before.insert(session_id@, changed));
                    if before[session_id@].canvas == size {
                        assert(self.sessions@ =~= before);
                    }
                    assert(root_in_order(session_id@, changed, self.terminals@));
                    replacing_keeps_order(before, self.terminals@, session_id@, changed);
                }
            },
            None => {},
        }
    }

    /// Notes the grid that a terminal's PTY has taken.
    pub fn set_terminal_size(&mut self, terminal_id: &str, size: TerminalSize)
        requires
            old(self).wf(),
            usable_size(size),
        ensures
            final(self).wf(),
            final(self).sessions() == old(self).sessions(),
            final(self).names() == old(self).names(),
            final(self).terminals() == if old(self).terminals().dom().contains(terminal_id@) {
                old(self).terminals().insert(
                    terminal_id@,
                    Pty { size, ..old(self).terminals()[terminal_id@] },
                )
            } else {
                old(self).terminals()
            },
    {
        let ghost before = self.terminals@;
        match self.terminals.take(terminal_id) {
            Some(mut terminal) => {
                terminal.terminal_size = size;
                let ghost changed = terminal@;
                self.terminals.put(terminal_id, terminal);
                proof {
                    assert(self.terminals@ =~= before.insert(terminal_id@, changed));
                    owners_decide(self.sessions@, before, self.terminals@);
                }
            },
            None => {},
        }
    }

    /// Replaces the layout of a view by another arrangement of the same
    /// terminals.
    ///
    /// The caller names the revision that it saw, so that nothing is lost when
    /// two clients edit the same view.
    pub fn update_view(&mut self, selector: &str, expected_revision: u64, layout: ViewLayout) -> (
    result: Result<ViewChange, SessionManagerError>)
        requires
            old(self).wf(),
            forall|id: Seq<char>| #[trigger]
                root_selected(old(self).sessions(), selector@, id) ==> old(
                    self,
                ).sessions()[id].revision < u64::MAX,
        ensures
            final(self).wf(),
            final(self).terminals() == old(self).terminals(),
            final(self).names() == old(self).names(),
            match result {
                Ok(change) => {
                    let id = change.session_id@;
                    let root = old(self).sessions()[id];
                    &&& root_selected(old(self).sessions(), selector@, id)
                    &&& layout_problem(layout@, 0) is None
                    &&& root.revision == expected_revision
                    &&& same_terminals(layout@.ids(), root.layout.ids())
                    &&& layout@.fits(root.canvas.columns as int, root.canvas.rows as int)
                    &&& layout@.inhabited()
                    &&& final(self).sessions() == old(self).sessions().insert(
                        id,
                        Root {
                            layout: layout@,
                            revision: (expected_revision + 1) as u64,
                            ..root
                        },
                    )
                    &&& follows(change.resizes@, layout@, root.canvas)
                },
                Err(error) => {
                    &&& final(self).sessions() == old(self).sessions()
                    &&& match layout_problem(layout@, 0) {
                        Some(problem) => view_refused(error, problem),
                        None => {
                            ||| root_missing(old(self).sessions(), selector@) && not_found(
                                error,
                                selector@,
                            )
                            ||| exists|id: Seq<char>| #[trigger]
                                root_selected(old(self).sessions(), selector@, id) && ({
                                    let root = old(self).sessions()[id];
                                    if root.revision != expected_revision {
                                        view_refused(error, "view changed; reload before editing"@)
                                    } else if !same_terminals(layout@.ids(), root.layout.ids()) {
                                        view_refused(
                                            error,
                                            "layout must contain each owned terminal exactly once"@,
                                        )
                                    } else {
                                        &&& !(layout@.fits(
                                            root.canvas.columns as int,
                                            root.canvas.rows as int,
                                        ) && layout@.inhabited())
                                        &&& view_refused(
                                            error,
                                            geometry_problem(layout@, root.canvas),
                                        )
                                    }
                                })
                        },
                    }
                },
            },
    {
        match validate_layout(&layout, 0) {
            Ok(_) => {},
            Err(error) => {
                return Err(error);
            },
        }
        let session_id = match self.root(selector) {
            Ok(id) => id,
            Err(error) => {
                return Err(error);
            },
        };
        let ghost before = self.sessions@;
        let resizes = match self.sessions.get(session_id.as_str()) {
            Some(root) => {
                assert(root_selected(self.sessions(), selector@, session_id@));
                assert(root_in_order(session_id@, root@, self.terminals@));
                if root.revision != expected_revision {
                    return Err(
                        SessionManagerError::InvalidView(
                            "view changed; reload before editing".to_owned(),
                        ),
                    );
                }
                let ids = layout.terminal_ids();
                let expected = root.layout.terminal_ids();
                if !names_same_terminals(&ids, &expected) {
                    return Err(
                        SessionManagerError::InvalidView(
                            "layout must contain each owned terminal exactly once".to_owned(),
                        ),
                    );
                }
                match resizes_of(&layout, root.canvas_size) {
                    Ok(resizes) => resizes,
                    Err(message) => {
                        return Err(SessionManagerError::InvalidView(message));
                    },
                }
            },
            None => {
                assert(false);
                Vec::new()
            },
        };
        match self.sessions.take(session_id.as_str()) {
            Some(mut root) => {
                let ghost old_root = root@;
                root.layout = layout;
                root.revision = root.revision + 1;
                let ghost changed = root@;
                self.sessions.put(session_id.as_str(), root);
                proof {
                    assert(self.sessions@ =~= before.insert(session_id@, changed));
                    assert(root_in_order(session_id@, old_root, self.terminals@));
                    same_terminals_is_symmetric(changed.layout.ids(), old_root.layout.ids());
                    assert(root_in_order(session_id@, changed, self.terminals@));
                    replacing_keeps_order(before, self.terminals@, session_id@, changed);
                }
            },
            None => {
                assert(false);
            },
        }
        Ok(ViewChange { session_id, resizes })
    }

    /// Plans to split a terminal: the new terminal's owner, and the layout of
    /// the view once the new terminal is there.
    pub fn plan_split(&self, target_id: &str, new_id: &str, axis: SplitAxis) -> (result: Result<
        (TerminalOwner, ViewLayout),
        SessionManagerError,
    >)
        requires
            self.wf(),
        ensures
            ({
                let terminal = self.terminals()[target_id@];
                let root = self.sessions()[terminal.owner.session];
                let split = root.layout.split(target_id@, new_id@, axis);
                match result {
                    Ok((owner, layout)) => {
                        &&& self.terminals().dom().contains(target_id@)
                        &&& !terminal.managed
                        &&& !root.closing
                        &&& layout_problem(split, 0) is None
                        &&& split.fits(root.canvas.columns as int, root.canvas.rows as int)
                        &&& split.inhabited()
                        &&& owner@ == terminal.owner
                        &&& layout@ == split
                        &&& exists|at: int| #[trigger]
                            divided_at(
                                root.layout.placed(
                                    0,
                                    0,
                                    root.canvas.columns as int,
                                    root.canvas.rows as int,
                                ),
                                layout@.placed(
                                    0,
                                    0,
                                    root.canvas.columns as int,
                                    root.canvas.rows as int,
                                ),
                                at,
                                target_id@,
                                new_id@,
                                axis,
                            )
                    },
                    Err(error) => if !self.terminals().dom().contains(target_id@) {
                        not_found(error, target_id@)
                    } else if terminal.managed {
                        view_refused(error, "managed task terminals cannot be split"@)
                    } else if root.closing {
                        view_refused(error, "session is terminating"@)
                    } else if layout_problem(split, 0) is Some {
                        view_refused(error, layout_problem(split, 0)->0)
                    } else {
                        &&& !(split.fits(root.canvas.columns as int, root.canvas.rows as int)
                            && split.inhabited())
                        &&& view_refused(error, geometry_problem(split, root.canvas))
                    },
                }
            }),
    {
        let target = match self.terminals.get(target_id) {
            Some(target) => target,
            None => {
                return Err(SessionManagerError::NotFound { selector: target_id.to_owned() });
            },
        };
        if target.managed {
            return Err(
                SessionManagerError::InvalidView(
                    "managed task terminals cannot be split".to_owned(),
                ),
            );
        }
        let owner = target.owner.clone();
        assert(self.sessions@.dom().contains(owner@.session));
        match self.sessions.get(owner.session_id.as_str()) {
            Some(root) => {
                if root.closing {
                    return Err(
                        SessionManagerError::InvalidView("session is terminating".to_owned()),
                    );
                }
                let mut layout = root.layout.clone();
                layout.split_terminal(target_id, new_id, axis);
                proof {
                    assert(root_in_order(owner@.session, root@, self.terminals@));
                    splitting_divides_one_pane(
                        root@.layout,
                        target_id@,
                        new_id@,
                        axis,
                        0,
                        0,
                        root.canvas_size.columns as int,
                        root.canvas_size.rows as int,
                    );
                }
                match validate_layout(&layout, 0) {
                    Ok(_) => {},
                    Err(error) => {
                        return Err(error);
                    },
                }
                match layout.pane_geometry(&root.canvas_size) {
                    Ok(_) => Ok((owner, layout)),
                    Err(message) => Err(SessionManagerError::InvalidView(message)),
                }
            },
            None => {
                assert(false);
                Err(SessionManagerError::NotFound { selector: target_id.to_owned() })
            },
        }
    }

    /// Marks a session as terminating and names its terminals.
    pub fn begin_termination(&mut self, selector: &str) -> (result: Result<
        Vec<String>,
        SessionManagerError,
    >)
        requires
            old(self).wf(),
        ensures
            final(self).wf(),
            final(self).terminals() == old(self).terminals(),
            final(self).names() == old(self).names(),
            match result {
                Ok(ids) => exists|id: Seq<char>| #[trigger]
                    root_selected(old(self).sessions(), selector@, id) && texts(ids@) == old(
                        self,
                    ).sessions()[id].layout.ids() && final(self).sessions() == old(
                        self,
                    ).sessions().insert(
                        id,
                        Root { closing: true, ..old(self).sessions()[id] },
                    ),
                Err(error) => {
                    &&& not_found(error, selector@)
                    &&& root_missing(old(self).sessions(), selector@)
                    &&& final(self).sessions() == old(self).sessions()
                },
            },
    {
        let ghost before = self.sessions@;
        let session_id = match self.root(selector) {
            Ok(id) => id,
            Err(error) => {
                return Err(error);
            },
        };
        assert(root_selected(before, selector@, session_id@));
        match self.sessions.take(session_id.as_str()) {
            Some(mut root) => {
                assert(root_in_order(session_id@, root@, self.terminals@));
                root.closing = true;
                let ids = root.layout.terminal_ids();
                let ghost changed = root@;
                self.sessions.put(session_id.as_str(), root);
                proof {
                    assert(self.sessions@ =~= before.insert(session_id@, changed));
                    assert(root_in_order(session_id@, changed, self.terminals@));
                    replacing_keeps_order(before, self.terminals@, session_id@, changed);
                }
                Ok(ids)
            },
            None => {
                assert(false);
                Err(SessionManagerError::NotFound { selector: selector.to_owned() })
            },
        }
    }
}

/// Replacing a session's root by one that is in order, names the same
/// terminals and has the same name keeps the whole arrangement in order.
proof fn replacing_keeps_order(sessions: Roots, terminals: Ptys, id: Seq<char>, changed: Root)
    requires
        well_arranged(sessions, terminals),
        sessions.dom().contains(id),
        root_in_order(id, changed, terminals),
        changed.name == sessions[id].name,
        forall|terminal: Seq<char>| #[trigger]
            sessions[id].layout.ids().contains(terminal) ==> changed.layout.ids().contains(terminal),
    ensures
        well_arranged(sessions.insert(id, changed), terminals),
{
    let after = sessions.insert(id, changed);
    assert forall|other: Seq<char>| #[trigger] after.dom().contains(other) implies root_in_order(
        other,
        after[other],
        terminals,
    ) by {
        if other != id {
            assert(sessions.dom().contains(other));
        }
    }
    assert forall|terminal: Seq<char>| #[trigger] terminals.dom().contains(terminal) implies ({
        let owner = terminals[terminal].owner.session;
        &&& after.dom().contains(owner)
        &&& after[owner].layout.ids().contains(terminal)
        &&& usable_size(terminals[terminal].size)
    }) by {
        assert(sessions.dom().contains(terminals[terminal].owner.session));
    }
    assert forall|a: Seq<char>, b: Seq<char>| #[trigger] after.dom().contains(a)
        && #[trigger] after.dom().contains(b) && a != b implies after[a].name
        != after[b].name by {
        assert(sessions.dom().contains(a));
        assert(sessions.dom().contains(b));
    }
}

/// Only which terminals there are, whose they are, and whether their grids are
/// usable matters to the arrangement.
proof fn owners_decide(sessions: Roots, before: Ptys, after: Ptys)
    requires
        well_arranged(sessions, before),
        forall|terminal: Seq<char>| #[trigger]
            before.dom().contains(terminal) == after.dom().contains(terminal),
        forall|terminal: Seq<char>| #[trigger]
            after.dom().contains(terminal) ==> after[terminal].owner.session
                == before[terminal].owner.session && usable_size(after[terminal].size),
    ensures
        well_arranged(sessions, after),
{
    assert forall|id: Seq<char>| #[trigger] sessions.dom().contains(id) implies root_in_order(
        id,
        sessions[id],
        after,
    ) by {
        assert(root_in_order(id, sessions[id], before));
        assert forall|terminal: Seq<char>| #[trigger] sessions[id].layout.ids().contains(
            terminal,
        ) implies after.dom().contains(terminal) && after[terminal].owner.session == id by {
            assert(before.dom().contains(terminal));
        }
    }
    assert forall|terminal: Seq<char>| #[trigger] after.dom().contains(terminal) implies ({
        let owner = after[terminal].owner.session;
        &&& sessions.dom().contains(owner)
        &&& sessions[owner].layout.ids().contains(terminal)
        &&& usable_size(after[terminal].size)
    }) by {
        assert(before.dom().contains(terminal));
    }
}

/// Lists that name the same terminals, each once, contain each other.
proof fn same_terminals_is_symmetric(a: Seq<Seq<char>>, b: Seq<Seq<char>>)
    requires
        same_terminals(a, b),
        b.no_duplicates(),
    ensures
        forall|x: Seq<char>| #[trigger] b.contains(x) ==> a.contains(x),
        forall|x: Seq<char>| #[trigger] a.contains(x) ==> b.contains(x),
{
    a.unique_seq_to_set();
    b.unique_seq_to_set();
    let x = a.to_set();
    let y = b.to_set();
    assert(x.subset_of(y)) by {
        assert forall|t: Seq<char>| x.contains(t) implies y.contains(t) by {
            let i = choose|i: int| 0 <= i < a.len() && a[i] == t;
            assert(b.contains(a[i]));
        }
    }
    vstd::set_lib::lemma_subset_equality(x, y);
    assert forall|t: Seq<char>| #[trigger] b.contains(t) implies a.contains(t) by {
        assert(y.contains(t));
        assert(x.contains(t));
    }
    assert forall|t: Seq<char>| #[trigger] a.contains(t) implies b.contains(t) by {
        assert(x.contains(t));
    }
}

/// Whether two lists name the same terminals, each once.
fn names_same_terminals(ids: &Vec<String>, expected: &Vec<String>) -> (same: bool)
    ensures
        same == same_terminals(texts(ids@), texts(expected@)),
{
    let ghost a = texts(ids@);
    let ghost b = texts(expected@);
    if ids.len() != expected.len() {
        assert(a.len() != b.len());
        return false;
    }
    let mut index: usize = 0;
    while index < ids.len()
        invariant
            index <= ids@.len(),
            ids@.len() == expected@.len(),
            a == texts(ids@),
            b == texts(expected@),
            forall|i: int, j: int| 0 <= i < j < a.len() && i < index ==> a[i] != a[j],
            forall|i: int| 0 <= i < index ==> b.contains(#[trigger] a[i]),
        decreases ids@.len() - index,
    {
        assert(a[index as int] == ids@[index as int]@);
        if !holds_text(expected, ids[index].as_str()) {
            return false;
        }
        let mut later: usize = index + 1;
        while later < ids.len()
            invariant
                index < ids@.len(),
                index + 1 <= later <= ids@.len(),
                a == texts(ids@),
                b == texts(expected@),
                forall|j: int| index < j < later ==> a[index as int] != a[j],
            decreases ids@.len() - later,
        {
            assert(a[index as int] == ids@[index as int]@);
            assert(a[later as int] == ids@[later as int]@);
            if same_text(ids[index].as_str(), ids[later].as_str()) {
                assert(!a.no_duplicates());
                return false;
            }
            later += 1;
        }
        index += 1;
    }
    assert(a.no_duplicates()) by {
        assert forall|i: int, j: int| 0 <= i < a.len() && 0 <= j < a.len() && i != j implies a[i]
            != a[j] by {
            if i < j {
                assert(a[i] != a[j]);
            } else {
                assert(a[j] != a[i]);
            }
        }
    }
    true
}

/// A share of pixels is never more than the whole.
proof fn share_is_bounded(pixels: nat, part: nat, whole: nat)
    requires
        0 < whole,
        part <= whole,
    ensures
        (pixels * part) / whole <= pixels,
{
    assert(pixels * part <= pixels * whole) by (nonlinear_arith)
        requires
            part <= whole,
    ;
    vstd::arithmetic::div_mod::lemma_div_is_ordered(
        (pixels * part) as int,
        (pixels * whole) as int,
        whole as int,
    );
    vstd::arithmetic::div_mod::lemma_div_by_multiple(pixels as int, whole as int);
}

/// The grids that the terminals of a layout get on a canvas.
fn resizes_of(layout: &ViewLayout, size: TerminalSize) -> (result: Result<Vec<PtyResize>, String>)
    ensures
        result is Ok <==> layout@.fits(size.columns as int, size.rows as int)
            && layout@.inhabited(),
        match result {
            Ok(resizes) => follows(resizes@, layout@, size),
            Err(message) => message@ == geometry_problem(layout@, size),
        },
{
    let panes = match layout.pane_geometry(&size) {
        Ok(panes) => panes,
        Err(message) => {
            return Err(message);
        },
    };
    let ghost placed = layout@.placed(0, 0, size.columns as int, size.rows as int);
    proof {
        crate::layout::panes_tile_the_canvas(
            layout@,
            0,
            0,
            size.columns as int,
            size.rows as int,
        );
        assert(placed.len() == panes@.len());
    }
    let mut resizes: Vec<PtyResize> = Vec::new();
    let mut index: usize = 0;
    while index < panes.len()
        invariant
            index <= panes@.len(),
            panes_of(panes@) == placed,
            placed == layout@.placed(0, 0, size.columns as int, size.rows as int),
            crate::layout::usable_within(placed, 0, 0, size.columns as int, size.rows as int),
            resizes@.len() == index,
            forall|i: int|
                0 <= i < index ==> {
                    let grid = (#[trigger] resizes@[i]).terminal_size;
                    &&& resizes@[i].terminal_id@ == placed[i].id
                    &&& grid.columns == placed[i].columns
                    &&& grid.rows == placed[i].rows
                    &&& grid.pixel_width == (size.pixel_width as nat * placed[i].columns as nat)
                        / size.columns as nat
                    &&& grid.pixel_height == (size.pixel_height as nat * placed[i].rows as nat)
                        / size.rows as nat
                },
        decreases panes@.len() - index,
    {
        let pane: &PaneGeometry = &panes[index];
        proof {
            assert(placed[index as int] == pane@);
            assert(pane@.within(0, 0, size.columns as int, size.rows as int));
            share_is_bounded(
                size.pixel_width as nat,
                pane.columns as nat,
                size.columns as nat,
            );
            share_is_bounded(size.pixel_height as nat, pane.rows as nat, size.rows as nat);
            assert(size.pixel_width * pane.columns <= 0xffff * 0xffff) by (nonlinear_arith)
                requires
                    size.pixel_width <= 0xffff,
                    pane.columns <= 0xffff,
            ;
            assert(size.pixel_height * pane.rows <= 0xffff * 0xffff) by (nonlinear_arith)
                requires
                    size.pixel_height <= 0xffff,
                    pane.rows <= 0xffff,
            ;
        }
        let wide: u32 = (size.pixel_width as u32 * pane.columns as u32) / size.columns as u32;
        let high: u32 = (size.pixel_height as u32 * pane.rows as u32) / size.rows as u32;
        resizes.push(
            PtyResize {
                terminal_id: pane.terminal_id.clone(),
                terminal_size: TerminalSize {
                    columns: pane.columns,
                    rows: pane.rows,
                    pixel_width: wide as u16,
                    pixel_height: high as u16,
                },
            },
        );
        index += 1;
    }
    Ok(resizes)
}

/// Leases after several attachments gave theirs up.
pub open spec fn leases_without_all(leases: Leases, attachments: Seq<Seq<char>>) -> Leases
    decreases attachments.len(),
{
    if attachments.len() == 0 {
        leases
    } else {
        leases_without_all(leases, attachments.drop_last()).without(attachments.last())
    }
}

fn release_all(leases: &mut AttachmentLeaseRegistry, attachments: &Vec<String>)
    ensures
        final(leases)@ == leases_without_all(old(leases)@, texts(attachments@)),
{
    let ghost all = texts(attachments@);
    let ghost start = leases@;
    let mut index: usize = 0;
    assert(all.take(0) =~= Seq::empty());
    while index < attachments.len()
        invariant
            index <= attachments@.len(),
            all == texts(attachments@),
            leases@ == leases_without_all(start, all.take(index as int)),
        decreases attachments@.len() - index,
    {
        proof {
            let taken = all.take(index + 1);
            assert(taken.drop_last() =~= all.take(index as int));
            assert(taken.last() == attachments@[index as int]@);
        }
        leases.release_attachment(attachments[index].as_str());
        index += 1;
    }
    assert(all.take(index as int) =~= all);
}

/// A session's root once a terminal has left it; nothing when it was the last.
pub open spec fn root_without(root: Root, id: Seq<char>, terminal: Pty) -> Option<Root> {
    match root.layout.without(id) {
        Some(rest) => Some(
            Root {
                layout: rest,
                revision: (root.revision + 1) as u64,
                leases: leases_without_all(root.leases, terminal.attachments),
                ..root
            },
        ),
        None => None,
    }
}

/// The sessions once a terminal has left the one it belongs to. A session
/// without terminals is gone.
pub open spec fn detached(sessions: Roots, terminals: Ptys, id: Seq<char>) -> Roots {
    let owner = terminals[id].owner.session;
    match root_without(sessions[owner], id, terminals[id]) {
        Some(root) => sessions.insert(owner, root),
        None => sessions.remove(owner),
    }
}

/// After a terminal left its session, everything but that terminal is still
/// where it belongs.
proof fn detaching_keeps_the_rest(sessions: Roots, terminals: Ptys, id: Seq<char>)
    requires
        well_arranged(sessions, terminals),
        terminals.dom().contains(id),
    ensures
        ({
            let after = detached(sessions, terminals, id);
            &&& forall|s: Seq<char>| #[trigger]
                after.dom().contains(s) ==> root_in_order(s, after[s], terminals)
                    && !after[s].layout.ids().contains(id) && sessions.dom().contains(s)
                    && after[s].name == sessions[s].name
            &&& forall|t: Seq<char>| #[trigger]
                terminals.dom().contains(t) && t != id ==> {
                    let owner = terminals[t].owner.session;
                    &&& after.dom().contains(owner)
                    &&& after[owner].layout.ids().contains(t)
                }
        }),
{
    let owner = terminals[id].owner.session;
    let root = sessions[owner];
    assert(root_in_order(owner, root, terminals));
    removal_keeps_the_other_terminals(root.layout, id);
    removal_needs_no_more_room(root.layout, id);
    removal_facts(root.layout.ids(), id);
    let after = detached(sessions, terminals, id);
    assert forall|s: Seq<char>| #[trigger] after.dom().contains(s) implies root_in_order(
        s,
        after[s],
        terminals,
    ) && !after[s].layout.ids().contains(id) && sessions.dom().contains(s) && after[s].name
        == sessions[s].name by {
        if s == owner {
            let rest = root.layout.without(id)->0;
            assert forall|t: Seq<char>| #[trigger] rest.ids().contains(
                t,
            ) implies terminals.dom().contains(t) && terminals[t].owner.session == owner by {
                if t != id {
                    assert(ids_without(root.layout.ids(), id).contains(t));
                    assert(root.layout.ids().contains(t));
                }
            }
        } else {
            assert(sessions.dom().contains(s));
            assert(root_in_order(s, sessions[s], terminals));
        }
    }
    assert forall|t: Seq<char>| #[trigger] terminals.dom().contains(t) && t != id implies ({
        let o = terminals[t].owner.session;
        &&& after.dom().contains(o)
        &&& after[o].layout.ids().contains(t)
    }) by {
        let o = terminals[t].owner.session;
        assert(sessions[o].layout.ids().contains(t));
        if o == owner {
            assert(ids_without(root.layout.ids(), id).contains(t));
        }
    }
}

/// The terminals once some of them belong to another session.
pub open spec fn reowned(terminals: Ptys, ids: Seq<Seq<char>>, owner: Owner) -> Ptys {
    Map::new(
        |id: Seq<char>| terminals.dom().contains(id),
        |id: Seq<char>|
            if ids.contains(id) {
                Pty { owner, ..terminals[id] }
            } else {
                terminals[id]
            },
    )
}

impl SessionRegistry {
    /// Takes a terminal out of the session it belongs to.
    ///
    /// Returns the grids that the terminals left in that session get.
    fn detach(&mut self, id: &str) -> (change: Option<ViewChange>)
        requires
            old(self).wf(),
            old(self).terminals().dom().contains(id@),
            old(self).sessions()[old(self).terminals()[id@].owner.session].revision < u64::MAX,
        ensures
            final(self).sessions.wf(),
            final(self).terminals == old(self).terminals,
            final(self).names == old(self).names,
            final(self).sessions() == detached(old(self).sessions(), old(self).terminals(), id@),
            ({
                let owner = old(self).terminals()[id@].owner.session;
                let root = old(self).sessions()[owner];
                match (change, root.layout.without(id@)) {
                    (Some(change), Some(rest)) => change.session_id@ == owner && follows(
                        change.resizes@,
                        rest,
                        root.canvas,
                    ),
                    (None, None) => true,
                    _ => false,
                }
            }),
    {
        let ghost before = self.sessions@;
        let terminal = match self.terminals.get(id) {
            Some(terminal) => terminal,
            None => {
                assert(false);
                return None;
            },
        };
        let owner_id = terminal.owner.session_id.clone();
        proof {
            assert(before.dom().contains(owner_id@));
            assert(root_in_order(owner_id@, before[owner_id@], self.terminals@));
            removal_needs_no_more_room(before[owner_id@].layout, id@);
        }
        match self.sessions.take(owner_id.as_str()) {
            Some(mut root) => {
                match root.layout.clone().remove_terminal(id) {
                    Some(rest) => {
                        let resizes = resizes_of(&rest, root.canvas_size);
                        release_all(&mut root.leases, &terminal.attachment_ids);
                        root.layout = rest;
                        root.revision = root.revision + 1;
                        let ghost changed = root@;
                        self.sessions.put(owner_id.as_str(), root);
                        assert(self.sessions@ =~= before.insert(owner_id@, changed));
                        match resizes {
                            Ok(resizes) => Some(ViewChange { session_id: owner_id, resizes }),
                            Err(_) => {
                                assert(false);
                                None
                            },
                        }
                    },
                    None => {
                        assert(self.sessions@ =~= before.remove(owner_id@));
                        None
                    },
                }
            },
            None => {
                assert(false);
                None
            },
        }
    }

    /// Forgets a terminal that has ended. Its session goes with its last
    /// terminal.
    ///
    /// Returns the grids that the terminals left in its session get.
    pub fn remove_terminal(&mut self, id: &str) -> (change: Option<ViewChange>)
        requires
            old(self).wf(),
            old(self).terminals().dom().contains(id@) ==> old(self).sessions()[old(
                self,
            ).terminals()[id@].owner.session].revision < u64::MAX,
        ensures
            final(self).wf(),
            final(self).names() == old(self).names(),
            !old(self).terminals().dom().contains(id@) ==> {
                &&& change is None
                &&& final(self).sessions() == old(self).sessions()
                &&& final(self).terminals() == old(self).terminals()
            },
            old(self).terminals().dom().contains(id@) ==> {
                let owner = old(self).terminals()[id@].owner.session;
                let root = old(self).sessions()[owner];
                &&& final(self).sessions() == detached(
                    old(self).sessions(),
                    old(self).terminals(),
                    id@,
                )
                &&& final(self).terminals() == old(self).terminals().remove(id@)
                &&& match (change, root.layout.without(id@)) {
                    (Some(change), Some(rest)) => change.session_id@ == owner && follows(
                        change.resizes@,
                        rest,
                        root.canvas,
                    ),
                    (None, None) => true,
                    _ => false,
                }
            },
    {
        if !self.terminals.contains(id) {
            return None;
        }
        let ghost sessions = self.sessions@;
        let ghost terminals = self.terminals@;
        let change = self.detach(id);
        let _terminal = self.terminals.take(id);
        proof {
            detaching_keeps_the_rest(sessions, terminals, id@);
            let after = self.sessions@;
            let left = self.terminals@;
            assert forall|s: Seq<char>| #[trigger] after.dom().contains(s) implies root_in_order(
                s,
                after[s],
                left,
            ) by {
                assert(root_in_order(s, after[s], terminals));
                assert forall|t: Seq<char>| #[trigger] after[s].layout.ids().contains(
                    t,
                ) implies left.dom().contains(t) && left[t].owner.session == s by {
                    assert(terminals.dom().contains(t));
                }
            }
            assert forall|t: Seq<char>| #[trigger] left.dom().contains(t) implies ({
                let o = left[t].owner.session;
                &&& after.dom().contains(o)
                &&& after[o].layout.ids().contains(t)
                &&& usable_size(left[t].size)
            }) by {
                assert(terminals.dom().contains(t));
            }
            names_after_detaching(sessions, terminals, id@);
            assert forall|s: Seq<char>| #[trigger] after.dom().contains(
                s,
            ) implies !self.names@.pending.contains(after[s].name) by {
                assert(sessions.dom().contains(s));
            }
        }
        change
    }

    /// The names of the live sessions.
    fn live_names(&self) -> (names: Vec<String>)
        requires
            self.sessions.wf(),
        ensures
            forall|name: Seq<char>| #[trigger]
                texts(names@).contains(name) <==> bears_name(self.sessions@, name),
    {
        let mut names: Vec<String> = Vec::new();
        let mut index: usize = 0;
        proof {
            self.sessions.listing_is_complete();
        }
        while index < self.sessions.len()
            invariant
                index <= self.sessions.listed().len(),
                names@.len() == index,
                forall|i: int|
                    0 <= i < index ==> (#[trigger] names@[i])@ == self.sessions.listed()[i].1.name,
            decreases self.sessions.listed().len() - index,
        {
            let (_id, root) = self.sessions.entry(index);
            names.push(root.name.clone());
            index += 1;
        }
        proof {
            let live = texts(names@);
            let listed = self.sessions.listed();
            assert forall|name: Seq<char>| #[trigger] live.contains(name) <==> bears_name(
                self.sessions@,
                name,
            ) by {
                if live.contains(name) {
                    let i = choose|i: int| 0 <= i < live.len() && live[i] == name;
                    assert(names@[i]@ == listed[i].1.name);
                    assert(self.sessions@.dom().contains(listed[i].0));
                }
                if bears_name(self.sessions@, name) {
                    let id = choose|id: Seq<char>| #[trigger]
                        self.sessions@.dom().contains(id) && self.sessions@[id].name == name;
                    let i = choose|i: int| 0 <= i < listed.len() && (#[trigger] listed[i]).0 == id;
                    assert(names@[i]@ == listed[i].1.name);
                    assert(live[i] == name);
                }
            }
        }
        names
    }

    /// Reserves a name for a session to be: a chosen one, or the next
    /// automatic one.
    fn reserve(&mut self, name: Option<String>) -> (result: Result<String, SessionManagerError>)
        requires
            old(self).wf(),
        ensures
            final(self).wf(),
            final(self).sessions == old(self).sessions,
            final(self).terminals == old(self).terminals,
            match result {
                Ok(reserved) => {
                    &&& name_given(
                        taken_names(old(self).names(), old(self).sessions()),
                        old(self).names().next,
                        name,
                        reserved@,
                        final(self).names().next,
                    )
                    &&& final(self).names().pending == old(self).names().pending.push(reserved@)
                },
                Err(error) => {
                    &&& name_refused(
                        taken_names(old(self).names(), old(self).sessions()),
                        old(self).names().next,
                        name,
                        error,
                        final(self).names().next,
                    )
                    &&& final(self).names().pending == old(self).names().pending
                },
            },
    {
        let live = self.live_names();
        let ghost before = self.names@.pending;
        proof {
            assert forall|text: Seq<char>| #[trigger] (before + texts(live@)).contains(text) == (
            before.contains(text) || bears_name(self.sessions@, text)) by {
                contains_in_either(before, texts(live@), text);
            }
            assert forall|text: Seq<char>, other: Seq<char>| #[trigger]
                before.push(text).contains(other) == (before.contains(other) || text == other) by {
                crate::layout::push_contains(before, text, other);
            }
        }
        let result = match name {
            Some(name) => self.names.acquire(&live, name),
            None => self.names.acquire_automatic(&live),
        };
        match result {
            Ok(reserved) => Ok(reserved),
            Err(NameError::Invalid { message }) => Err(SessionManagerError::InvalidName { message }),
            Err(NameError::AlreadyExists { name }) => {
                Err(SessionManagerError::AlreadyExists { name })
            },
            Err(NameError::AutomaticNameExhausted) => Err(
                SessionManagerError::AutomaticNameExhausted,
            ),
        }
    }

    /// Gives a reserved name up.
    fn unreserve(&mut self, name: &str)
        requires
            old(self).wf(),
        ensures
            final(self).wf(),
            final(self).sessions == old(self).sessions,
            final(self).terminals == old(self).terminals,
            final(self).names().next == old(self).names().next,
            final(self).names().pending == without_text(
                old(self).names().pending,
                name@,
            ),
    {
        let ghost before = self.names@.pending;
        self.names.release(name);
        proof {
            assert forall|other: Seq<char>| #[trigger] self.names@.pending.contains(
                other,
            ) implies before.contains(other) by {
                remaining_texts(before, name@, other);
            }
        }
    }

    /// Whether a terminal has moved into a session of its own, and `after` is
    /// the registry since.
    pub open spec fn promoted(
        &self,
        after: SessionRegistry,
        terminal_id: Seq<char>,
        name: Option<String>,
        now_ms: u64,
        session_id: Seq<char>,
        view_id: Seq<char>,
        change: ViewChange,
    ) -> bool {
        let terminal = self.terminals()[terminal_id];
        let root = self.sessions()[terminal.owner.session];
        let new_name = after.sessions()[session_id].name;
        let owner = Owner {
            created_at_ms: now_ms,
            session: session_id,
            view: view_id,
            name: new_name,
        };
        &&& promotable(self.sessions(), self.terminals(), terminal_id)
        &&& !self.sessions().dom().contains(session_id)
        &&& name_given(
            taken_names(self.names(), self.sessions()),
            self.names().next,
            name,
            new_name,
            after.names().next,
        )
        &&& after.names().pending == self.names().pending
        &&& after.sessions() == detached(self.sessions(), self.terminals(), terminal_id).insert(
            session_id,
            Root {
                closing: false,
                name: new_name,
                view: view_id,
                revision: 0,
                layout: Layout::Leaf { id: terminal_id },
                canvas: terminal.size,
                leases: Leases::none(),
            },
        )
        &&& after.terminals() == self.terminals().insert(terminal_id, Pty { owner, ..terminal })
        &&& root.layout.without(terminal_id) is Some
        &&& change.session_id@ == terminal.owner.session
        &&& follows(change.resizes@, root.layout.without(terminal_id)->0, root.canvas)
    }

    /// Whether nothing stands in the way of a promotion but that the identifier
    /// for the new session is in use. Only the next automatic name may change.
    pub open spec fn awaits_identifier(
        &self,
        after: SessionRegistry,
        terminal_id: Seq<char>,
        name: Option<String>,
        session_id: Seq<char>,
    ) -> bool {
        let taken = taken_names(self.names(), self.sessions());
        &&& after.sessions() == self.sessions()
        &&& after.terminals() == self.terminals()
        &&& after.names().pending == self.names().pending
        &&& exists|chosen: Seq<char>| #[trigger]
            name_given(taken, self.names().next, name, chosen, after.names().next)
        &&& promotable(self.sessions(), self.terminals(), terminal_id)
        &&& self.sessions().dom().contains(session_id)
    }

    /// Whether an error is the right answer to a terminal that cannot move into
    /// a session of its own. Only the next automatic name may change.
    pub open spec fn not_promoted(
        &self,
        after: SessionRegistry,
        terminal_id: Seq<char>,
        name: Option<String>,
        error: SessionManagerError,
    ) -> bool {
        let taken = taken_names(self.names(), self.sessions());
        &&& after.sessions() == self.sessions()
        &&& after.terminals() == self.terminals()
        &&& after.names().pending == self.names().pending
        &&& {
            ||| name_refused(taken, self.names().next, name, error, after.names().next)
            ||| {
                &&& exists|chosen: Seq<char>| #[trigger]
                    name_given(taken, self.names().next, name, chosen, after.names().next)
                &&& promotion_refused(self.sessions(), self.terminals(), terminal_id, error)
            }
        }
    }

    /// Moves a terminal out of its session into a new session of its own,
    /// under identifiers that the caller has drawn. Nothing comes back when the
    /// identifier for the session is in use.
    pub fn promote_into(
        &mut self,
        terminal_id: &str,
        name: Option<String>,
        now_ms: u64,
        session_id: String,
        view_id: String,
    ) -> (result: Result<Option<ViewChange>, SessionManagerError>)
        requires
            old(self).wf(),
            old(self).terminals().dom().contains(terminal_id@) ==> old(self).sessions()[old(
                self,
            ).terminals()[terminal_id@].owner.session].revision < u64::MAX,
        ensures
            final(self).wf(),
            match result {
                Ok(Some(change)) => old(self).promoted(
                    *final(self),
                    terminal_id@,
                    name,
                    now_ms,
                    session_id@,
                    view_id@,
                    change,
                ),
                Ok(None) => old(self).awaits_identifier(
                    *final(self),
                    terminal_id@,
                    name,
                    session_id@,
                ),
                Err(error) => old(self).not_promoted(*final(self), terminal_id@, name, error),
            },
    {
        let ghost sessions = self.sessions@;
        let ghost terminals = self.terminals@;
        let ghost taken = taken_names(self.names@, self.sessions@);
        let ghost first = self.names@.next;
        let ghost before = self.names@.pending;
        let reserved = match self.reserve(name) {
            Ok(reserved) => reserved,
            Err(error) => {
                return Err(error);
            },
        };
        proof {
            reserving_and_releasing(before, reserved@);
            if terminals.dom().contains(terminal_id@) {
                let owner = terminals[terminal_id@].owner.session;
                assert(root_in_order(owner, sessions[owner], terminals));
            }
        }
        match self.promotion_problem(terminal_id) {
            Some(error) => {
                self.unreserve(reserved.as_str());
                proof {
                    assert(name_given(taken, first, name, reserved@, self.names@.next));
                }
                return Err(error);
            },
            None => {},
        }
        if self.sessions.contains(session_id.as_str()) {
            self.unreserve(reserved.as_str());
            proof {
                assert(name_given(taken, first, name, reserved@, self.names@.next));
            }
            return Ok(None);
        }
        proof {
            others_remain(sessions[terminals[terminal_id@].owner.session].layout, terminal_id@);
        }
        let change = self.detach(terminal_id);
        let ghost left = self.sessions@;
        let ghost pending = self.names@.pending;
        self.names.release(reserved.as_str());
        let owner = TerminalOwner {
            created_at_ms: now_ms,
            session_id: session_id.clone(),
            view_id: view_id.clone(),
            name: reserved.clone(),
        };
        let ghost new_owner = owner@;
        match self.terminals.take(terminal_id) {
            Some(mut terminal) => {
                terminal.owner = owner;
                let canvas_size = terminal.terminal_size;
                self.terminals.put(terminal_id, terminal);
                let root = SessionRoot {
                    closing: false,
                    name: reserved,
                    view_id,
                    revision: 0,
                    layout: ViewLayout::Terminal { terminal_id: terminal_id.to_owned() },
                    canvas_size,
                    leases: AttachmentLeaseRegistry::default(),
                };
                let ghost new_root = root@;
                self.sessions.put(session_id.as_str(), root);
                proof {
                    assert(self.terminals@ =~= terminals.insert(
                        terminal_id@,
                        Pty { owner: new_owner, ..terminals[terminal_id@] },
                    ));
                    detaching_keeps_the_rest(sessions, terminals, terminal_id@);
                    names_after_detaching(sessions, terminals, terminal_id@);
                    promotion_keeps_order(
                        sessions,
                        terminals,
                        terminal_id@,
                        session_id@,
                        new_root,
                        new_owner,
                    );
                    assert forall|s: Seq<char>| #[trigger] self.sessions@.dom().contains(
                        s,
                    ) implies !self.names@.pending.contains(self.sessions@[s].name) by {
                        if self.names@.pending.contains(self.sessions@[s].name) {
                            remaining_texts(
                                pending,
                                new_root.name,
                                self.sessions@[s].name,
                            );
                            if s != session_id@ {
                                assert(left.dom().contains(s));
                                assert(sessions.dom().contains(s));
                            }
                        }
                    }
                }
            },
            None => {
                assert(false);
            },
        }
        Ok(change)
    }

    /// Why a terminal cannot be promoted, if anything.
    fn promotion_problem(&self, terminal_id: &str) -> (problem: Option<SessionManagerError>)
        requires
            self.wf(),
        ensures
            match problem {
                None => promotable(self.sessions(), self.terminals(), terminal_id@),
                Some(error) => promotion_refused(
                    self.sessions(),
                    self.terminals(),
                    terminal_id@,
                    error,
                ),
            },
    {
        let terminal = match self.terminals.get(terminal_id) {
            Some(terminal) => terminal,
            None => {
                return Some(SessionManagerError::NotFound { selector: terminal_id.to_owned() });
            },
        };
        if terminal.managed {
            return Some(
                SessionManagerError::InvalidView(
                    "managed task terminals cannot be moved".to_owned(),
                ),
            );
        }
        assert(self.sessions@.dom().contains(terminal@.owner.session));
        match self.sessions.get(terminal.owner.session_id.as_str()) {
            Some(root) => {
                if root.closing {
                    return Some(
                        SessionManagerError::InvalidView("session is terminating".to_owned()),
                    );
                }
                let ids = root.layout.terminal_ids();
                assert(texts(ids@).len() == ids@.len());
                if ids.len() == 1 {
                    return Some(
                        SessionManagerError::InvalidView(
                            "terminal is already the only terminal in its session".to_owned(),
                        ),
                    );
                }
            },
            None => {
                assert(false);
            },
        }
        None
    }

    /// Moves a terminal out of its session into a new session of its own: draws
    /// identifiers and hands them to [`SessionRegistry::promote_into`]. Nothing
    /// comes back when a drawn identifier is in use, which only chance decides.
    pub fn promote_terminal(&mut self, terminal_id: &str, name: Option<String>, now_ms: u64) -> (
    result: Result<Option<Promotion>, SessionManagerError>)
        requires
            old(self).wf(),
            old(self).terminals().dom().contains(terminal_id@) ==> old(self).sessions()[old(
                self,
            ).terminals()[terminal_id@].owner.session].revision < u64::MAX,
        ensures
            final(self).wf(),
            match result {
                Ok(Some(promotion)) => {
                    &&& hyphenated(promotion.session_id@)
                    &&& hyphenated(final(self).sessions()[promotion.session_id@].view)
                    &&& old(self).promoted(
                        *final(self),
                        terminal_id@,
                        name,
                        now_ms,
                        promotion.session_id@,
                        final(self).sessions()[promotion.session_id@].view,
                        promotion.change,
                    )
                },
                Ok(None) => exists|session_id: Seq<char>| #[trigger]
                    hyphenated(session_id) && old(self).awaits_identifier(
                        *final(self),
                        terminal_id@,
                        name,
                        session_id,
                    ),
                Err(error) => old(self).not_promoted(*final(self), terminal_id@, name, error),
            },
    {
        let session_id = random_id();
        let view_id = random_id();
        match self.promote_into(terminal_id, name, now_ms, session_id.clone(), view_id) {
            Ok(Some(change)) => Ok(Some(Promotion { session_id, change })),
            Ok(None) => Ok(None),
            Err(error) => Err(error),
        }
    }

    /// Moves every terminal of one session into the view of another, beside
    /// what is shown there, and ends the first session.
    pub fn merge_sessions(&mut self, source: &str, destination: &str) -> (result: Result<
        ViewChange,
        SessionManagerError,
    >)
        requires
            old(self).wf(),
            forall|id: Seq<char>| #[trigger]
                root_selected(old(self).sessions(), destination@, id) ==> old(
                    self,
                ).sessions()[id].revision < u64::MAX,
        ensures
            final(self).wf(),
            final(self).names() == old(self).names(),
            match result {
                Ok(change) => exists|from: Seq<char>| #[trigger]
                    root_selected(old(self).sessions(), source@, from) && ({
                        let into = change.session_id@;
                        let sessions = old(self).sessions();
                        let root = sessions[into];
                        let merged = merged_layout(root.layout, sessions[from].layout);
                        &&& root_selected(sessions, destination@, into)
                        &&& merge_problem(sessions, old(self).terminals(), from, into) is None
                        &&& final(self).sessions() == sessions.remove(from).insert(
                            into,
                            Root {
                                layout: merged,
                                revision: (root.revision + 1) as u64,
                                ..root
                            },
                        )
                        &&& final(self).terminals() == reowned(
                            old(self).terminals(),
                            sessions[from].layout.ids(),
                            Owner {
                                created_at_ms: old(
                                    self,
                                ).terminals()[root.layout.first()->0].owner.created_at_ms,
                                session: into,
                                view: root.view,
                                name: root.name,
                            },
                        )
                        &&& follows(change.resizes@, merged, root.canvas)
                        &&& side_by_side(
                            final(self).sessions()[into].layout,
                            root.layout,
                            sessions[from].layout,
                            root.canvas.columns as int,
                            root.canvas.rows as int,
                        )
                    }),
                Err(error) => {
                    &&& final(self).sessions() == old(self).sessions()
                    &&& final(self).terminals() == old(self).terminals()
                    &&& {
                        ||| root_missing(old(self).sessions(), source@) && not_found(error, source@)
                        ||| {
                            &&& !root_missing(old(self).sessions(), source@)
                            &&& root_missing(old(self).sessions(), destination@)
                            &&& not_found(error, destination@)
                        }
                        ||| exists|from: Seq<char>, into: Seq<char>|
                            #[trigger] root_selected(old(self).sessions(), source@, from)
                                && #[trigger] root_selected(
                                old(self).sessions(),
                                destination@,
                                into,
                            ) && match merge_problem(
                                old(self).sessions(),
                                old(self).terminals(),
                                from,
                                into,
                            ) {
                                Some(problem) => view_refused(error, problem),
                                None => false,
                            }
                    }
                },
            },
    {
        let ghost sessions = self.sessions@;
        let ghost terminals = self.terminals@;
        let source_id = match self.root(source) {
            Ok(id) => id,
            Err(error) => {
                return Err(error);
            },
        };
        let destination_id = match self.root(destination) {
            Ok(id) => id,
            Err(error) => {
                return Err(error);
            },
        };
        let ghost from = source_id@;
        let ghost into = destination_id@;
        proof {
            assert(root_selected(sessions, source@, from));
            assert(root_selected(sessions, destination@, into));
            assert(root_in_order(from, sessions[from], terminals));
            assert(root_in_order(into, sessions[into], terminals));
        }
        let (merged, resizes, created_at_ms) = match self.plan_merge(
            source_id.as_str(),
            destination_id.as_str(),
        ) {
            Ok(plan) => plan,
            Err(error) => {
                return Err(error);
            },
        };
        match (
            self.sessions.take(source_id.as_str()),
            self.sessions.take(destination_id.as_str()),
        ) {
            (Some(source_root), Some(mut root)) => {
                let owner = TerminalOwner {
                    created_at_ms,
                    session_id: destination_id.clone(),
                    view_id: root.view_id.clone(),
                    name: root.name.clone(),
                };
                let moved = source_root.layout.terminal_ids();
                root.layout = merged;
                root.revision = root.revision + 1;
                let ghost changed = root@;
                self.sessions.put(destination_id.as_str(), root);
                self.reown(&moved, &owner);
                proof {
                    assert(self.sessions@ =~= sessions.remove(from).insert(into, changed));
                    merging_keeps_order(sessions, terminals, from, into, changed, owner@);
                    merged_views_stand_side_by_side(
                        sessions[into].layout,
                        sessions[from].layout,
                        changed.canvas.columns as int,
                        changed.canvas.rows as int,
                    );
                    assert forall|s: Seq<char>| #[trigger] self.sessions@.dom().contains(
                        s,
                    ) implies !self.names@.pending.contains(self.sessions@[s].name) by {
                        assert(sessions.dom().contains(s));
                    }
                }
            },
            _ => {
                assert(false);
            },
        }
        Ok(ViewChange { session_id: destination_id, resizes })
    }

    /// The merged layout, the grids it gives, and the creation time of the
    /// session that stays; or why the two cannot be merged.
    fn plan_merge(&self, source_id: &str, destination_id: &str) -> (result: Result<
        (ViewLayout, Vec<PtyResize>, u64),
        SessionManagerError,
    >)
        requires
            self.wf(),
            self.sessions().dom().contains(source_id@),
            self.sessions().dom().contains(destination_id@),
        ensures
            ({
                let root = self.sessions()[destination_id@];
                let merged = merged_layout(root.layout, self.sessions()[source_id@].layout);
                let problem = merge_problem(
                    self.sessions(),
                    self.terminals(),
                    source_id@,
                    destination_id@,
                );
                match result {
                    Ok((layout, resizes, created_at_ms)) => {
                        &&& problem is None
                        &&& layout@ == merged
                        &&& follows(resizes@, merged, root.canvas)
                        &&& created_at_ms
                            == self.terminals()[root.layout.first()->0].owner.created_at_ms
                    },
                    Err(error) => problem is Some && view_refused(error, problem->0),
                }
            }),
    {
        if same_text(source_id, destination_id) {
            return Err(
                SessionManagerError::InvalidView("cannot merge a session into itself".to_owned()),
            );
        }
        match self.merge_party_problem(source_id) {
            Some(error) => {
                return Err(error);
            },
            None => {},
        }
        match self.merge_party_problem(destination_id) {
            Some(error) => {
                return Err(error);
            },
            None => {},
        }
        match (self.sessions.get(source_id), self.sessions.get(destination_id)) {
            (Some(source), Some(destination)) => {
                let mut children: Vec<ViewLayout> = Vec::new();
                children.push(destination.layout.clone());
                children.push(source.layout.clone());
                proof {
                    layouts_facts(children@);
                    assert(layouts(children@) =~= seq![destination@.layout, source@.layout]);
                    assert(root_in_order(source_id@, source@, self.terminals@));
                    assert(root_in_order(destination_id@, destination@, self.terminals@));
                    merged_layout_facts(destination@.layout, source@.layout);
                    first_stands_in_the_layout(destination@.layout);
                }
                let merged = ViewLayout::Split { axis: SplitAxis::Horizontal, children };
                match validate_layout(&merged, 0) {
                    Ok(_) => {},
                    Err(error) => {
                        return Err(error);
                    },
                }
                let resizes = match resizes_of(&merged, destination.canvas_size) {
                    Ok(resizes) => resizes,
                    Err(message) => {
                        return Err(SessionManagerError::InvalidView(message));
                    },
                };
                let first = destination.layout.first_terminal();
                let created_at_ms: u64 = match self.terminals.get(first.as_str()) {
                    Some(terminal) => terminal.owner.created_at_ms,
                    None => {
                        assert(false);
                        0
                    },
                };
                Ok((merged, resizes, created_at_ms))
            },
            _ => {
                assert(false);
                Err(SessionManagerError::NotFound { selector: source_id.to_owned() })
            },
        }
    }

    /// Why a session cannot take part in a merge, if anything.
    fn merge_party_problem(&self, session_id: &str) -> (problem: Option<SessionManagerError>)
        requires
            self.wf(),
            self.sessions().dom().contains(session_id@),
        ensures
            match problem {
                Some(error) => match party_problem(
                    self.sessions()[session_id@],
                    self.terminals(),
                ) {
                    Some(text) => view_refused(error, text),
                    None => false,
                },
                None => party_problem(self.sessions()[session_id@], self.terminals()) is None,
            },
    {
        match self.sessions.get(session_id) {
            Some(root) => {
                assert(root_in_order(session_id@, root@, self.terminals@));
                if root.closing {
                    return Some(
                        SessionManagerError::InvalidView("session is terminating".to_owned()),
                    );
                }
                let ids = root.layout.terminal_ids();
                let mut index: usize = 0;
                while index < ids.len()
                    invariant
                        index <= ids@.len(),
                        self.wf(),
                        texts(ids@) == root@.layout.ids(),
                        root@ == self.sessions()[session_id@],
                        !root@.closing,
                        root_in_order(session_id@, root@, self.terminals@),
                        forall|i: int|
                            0 <= i < index ==> !self.terminals@[#[trigger] root@.layout.ids()[i]].managed,
                    decreases ids@.len() - index,
                {
                    assert(texts(ids@)[index as int] == ids@[index as int]@);
                    assert(root@.layout.ids().contains(ids@[index as int]@));
                    match self.terminals.get(ids[index].as_str()) {
                        Some(terminal) => {
                            if terminal.managed {
                                assert(self.terminals@[root@.layout.ids()[index as int]].managed);
                                return Some(
                                    SessionManagerError::InvalidView(
                                        "managed task sessions cannot be merged".to_owned(),
                                    ),
                                );
                            }
                        },
                        None => {
                            assert(false);
                        },
                    }
                    index += 1;
                }
                assert(texts(ids@).len() == ids@.len());
                None
            },
            None => {
                assert(false);
                None
            },
        }
    }

    /// Gives terminals to another session.
    fn reown(&mut self, ids: &Vec<String>, owner: &TerminalOwner)
        requires
            old(self).terminals.wf(),
        ensures
            final(self).sessions == old(self).sessions,
            final(self).names == old(self).names,
            final(self).terminals.wf(),
            final(self).terminals@ == reowned(old(self).terminals@, texts(ids@), owner@),
    {
        let ghost start = self.terminals@;
        let ghost all = texts(ids@);
        let mut index: usize = 0;
        proof {
            assert(all.take(0) =~= Seq::empty());
            assert(reowned(start, all.take(0), owner@) =~= start);
        }
        while index < ids.len()
            invariant
                index <= ids@.len(),
                all == texts(ids@),
                self.sessions == old(self).sessions,
                self.names == old(self).names,
                self.terminals.wf(),
                self.terminals@ == reowned(start, all.take(index as int), owner@),
            decreases ids@.len() - index,
        {
            let ghost before = self.terminals@;
            let ghost id = ids@[index as int]@;
            proof {
                let taken = all.take(index + 1);
                assert(taken =~= all.take(index as int).push(id));
                assert forall|other: Seq<char>| #[trigger] taken.contains(other) == (all.take(
                    index as int,
                ).contains(other) || other == id) by {
                    crate::layout::push_contains(all.take(index as int), id, other);
                }
            }
            match self.terminals.take(ids[index].as_str()) {
                Some(mut terminal) => {
                    terminal.owner = owner.clone();
                    self.terminals.put(ids[index].as_str(), terminal);
                },
                None => {},
            }
            assert(self.terminals@ =~= reowned(start, all.take(index + 1), owner@));
            index += 1;
        }
        assert(all.take(index as int) =~= all);
    }

    /// Adds a session with one terminal, whose name was reserved.
    pub fn add_session(
        &mut self,
        session_id: &str,
        view_id: &str,
        name: &str,
        terminal_id: &str,
        created_at_ms: u64,
        managed: bool,
        terminal_size: TerminalSize,
    ) -> (added: bool)
        requires
            old(self).wf(),
            usable_size(terminal_size),
        ensures
            final(self).wf(),
            added == (!old(self).sessions().dom().contains(session_id@) && !old(
                self,
            ).terminals().dom().contains(terminal_id@) && !old(self).names().pending.contains(
                name@,
            ) && forall|id: Seq<char>| #[trigger]
                old(self).sessions().dom().contains(id) ==> old(self).sessions()[id].name
                    != name@),
            final(self).names() == old(self).names(),
            !added ==> final(self).sessions() == old(self).sessions() && final(self).terminals()
                == old(self).terminals(),
            added ==> {
                &&& final(self).sessions() == old(self).sessions().insert(
                    session_id@,
                    Root {
                        closing: false,
                        name: name@,
                        view: view_id@,
                        revision: 0,
                        layout: Layout::Leaf { id: terminal_id@ },
                        canvas: terminal_size,
                        leases: Leases::none(),
                    },
                )
                &&& final(self).terminals() == old(self).terminals().insert(
                    terminal_id@,
                    Pty {
                        name: name@,
                        managed,
                        owner: Owner {
                            created_at_ms,
                            session: session_id@,
                            view: view_id@,
                            name: name@,
                        },
                        created_at_ms,
                        next_sequence: 0,
                        size: terminal_size,
                        attachments: Seq::empty(),
                    },
                )
            },
    {
        let ghost sessions = self.sessions@;
        let ghost terminals = self.terminals@;
        let live = self.live_names();
        if self.sessions.contains(session_id) || self.terminals.contains(terminal_id) {
            return false;
        }
        if self.names.is_pending(name) || holds_text(&live, name) {
            return false;
        }
        let owner = TerminalOwner {
            created_at_ms,
            session_id: session_id.to_owned(),
            view_id: view_id.to_owned(),
            name: name.to_owned(),
        };
        let ghost new_owner = owner@;
        let record = TerminalRecord {
            name: name.to_owned(),
            managed,
            owner,
            created_at_ms,
            next_sequence: 0,
            terminal_size,
            attachment_ids: Vec::new(),
        };
        assert(texts(record.attachment_ids@) =~= Seq::empty());
        let ghost new_terminal = record@;
        self.terminals.put(terminal_id, record);
        let root = SessionRoot {
            closing: false,
            name: name.to_owned(),
            view_id: view_id.to_owned(),
            revision: 0,
            layout: ViewLayout::Terminal { terminal_id: terminal_id.to_owned() },
            canvas_size: terminal_size,
            leases: AttachmentLeaseRegistry::default(),
        };
        let ghost new_root = root@;
        self.sessions.put(session_id, root);
        proof {
            adding_keeps_order(
                sessions,
                terminals,
                session_id@,
                new_root,
                terminal_id@,
                new_terminal,
            );
        }
        true
    }
}

/// A terminal that got a session of its own.
pub struct Promotion {
    pub session_id: String,
    /// What changes in the session that it left.
    pub change: ViewChange,
}

/// Whether a name belongs to a live session.
pub open spec fn bears_name(sessions: Roots, name: Seq<char>) -> bool {
    exists|id: Seq<char>| #[trigger] sessions.dom().contains(id) && sessions[id].name == name
}

/// The names that are reserved or belong to a live session.
pub open spec fn taken_names(names: Names, sessions: Roots) -> Set<Seq<char>> {
    Set::new(|name: Seq<char>| names.pending.contains(name) || bears_name(sessions, name))
}

/// Why a terminal cannot be moved into a session of its own.
pub open spec fn promotion_refused(
    sessions: Roots,
    terminals: Ptys,
    id: Seq<char>,
    error: SessionManagerError,
) -> bool {
    let terminal = terminals[id];
    let root = sessions[terminal.owner.session];
    if !terminals.dom().contains(id) {
        not_found(error, id)
    } else if terminal.managed {
        view_refused(error, "managed task terminals cannot be moved"@)
    } else if root.closing {
        view_refused(error, "session is terminating"@)
    } else {
        &&& root.layout.ids().len() == 1
        &&& view_refused(error, "terminal is already the only terminal in its session"@)
    }
}

/// Whether a terminal can be moved into a session of its own.
pub open spec fn promotable(sessions: Roots, terminals: Ptys, id: Seq<char>) -> bool {
    let root = sessions[terminals[id].owner.session];
    &&& terminals.dom().contains(id)
    &&& !terminals[id].managed
    &&& !root.closing
    &&& root.layout.ids().len() != 1
}

/// The layout of two views side by side.
pub open spec fn merged_layout(destination: Layout, source: Layout) -> Layout {
    Layout::Group { axis: SplitAxis::Horizontal, children: seq![destination, source] }
}

/// Why a session cannot take part in a merge.
pub open spec fn party_problem(root: Root, terminals: Ptys) -> Option<Seq<char>> {
    if root.closing {
        Some("session is terminating"@)
    } else if exists|i: int|
        0 <= i < root.layout.ids().len() && terminals[#[trigger] root.layout.ids()[i]].managed {
        Some("managed task sessions cannot be merged"@)
    } else {
        None
    }
}

/// Why two sessions cannot be merged.
pub open spec fn merge_problem(
    sessions: Roots,
    terminals: Ptys,
    from: Seq<char>,
    into: Seq<char>,
) -> Option<Seq<char>> {
    let canvas = sessions[into].canvas;
    let merged = merged_layout(sessions[into].layout, sessions[from].layout);
    if from == into {
        Some("cannot merge a session into itself"@)
    } else if party_problem(sessions[from], terminals) is Some {
        party_problem(sessions[from], terminals)
    } else if party_problem(sessions[into], terminals) is Some {
        party_problem(sessions[into], terminals)
    } else if layout_problem(merged, 0) is Some {
        layout_problem(merged, 0)
    } else if !merged.fits(canvas.columns as int, canvas.rows as int) {
        Some(geometry_problem(merged, canvas))
    } else {
        None
    }
}

proof fn merged_layout_facts(a: Layout, b: Layout)
    ensures
        merged_layout(a, b).ids() == a.ids() + b.ids(),
        merged_layout(a, b).inhabited() == (a.inhabited() && b.inhabited()),
{
    let both = seq![a, b];
    assert(both.drop_last() =~= seq![a]);
    assert(seq![a].drop_last() =~= Seq::<Layout>::empty());
    reveal_with_fuel(ids_of, 3);
    assert(ids_of(both) =~= a.ids() + b.ids());
    assert(crate::layout::all_inhabited(both.drop_last().drop_last()));
    assert(crate::layout::all_inhabited(seq![a]) == a.inhabited());
    assert(crate::layout::all_inhabited(both) == (a.inhabited() && b.inhabited()));
}

/// The first terminal of a layout without empty splits is one of its
/// terminals.
proof fn first_stands_in_the_layout(layout: Layout)
    requires
        layout.inhabited(),
    ensures
        layout.first() is Some,
        layout.ids().len() > 0,
        layout.ids()[0] == layout.first()->0,
        layout.ids().contains(layout.first()->0),
    decreases layout,
{
    match layout {
        Layout::Leaf { id } => {
            assert(layout.ids()[0] == id);
        },
        Layout::Group { children, .. } => {
            inhabited_children(children, 0);
            first_stands_in_the_layout(children[0]);
            ids_begin_with_the_first(children);
            assert(layout.ids()[0] == layout.first()->0);
        },
    }
}

proof fn inhabited_children(list: Seq<Layout>, i: int)
    requires
        crate::layout::all_inhabited(list),
        0 <= i < list.len(),
    ensures
        list[i].inhabited(),
    decreases list.len(),
{
    if i < list.len() - 1 {
        inhabited_children(list.drop_last(), i);
    }
}

proof fn ids_begin_with_the_first(list: Seq<Layout>)
    requires
        list.len() > 0,
        list[0].ids().len() > 0,
    ensures
        ids_of(list).len() > 0,
        ids_of(list)[0] == list[0].ids()[0],
    decreases list.len(),
{
    if list.len() > 1 {
        ids_begin_with_the_first(list.drop_last());
    } else {
        reveal_with_fuel(ids_of, 2);
        assert(list.drop_last() =~= Seq::empty());
        assert(ids_of(list) =~= list[0].ids());
    }
}

/// A layout of several terminals keeps some without any one of them.
proof fn others_remain(layout: Layout, id: Seq<char>)
    requires
        layout.ids().no_duplicates(),
        layout.ids().contains(id),
        layout.ids().len() != 1,
    ensures
        layout.without(id) is Some,
{
    let ids = layout.ids();
    removal_keeps_the_other_terminals(layout, id);
    removal_facts(ids, id);
    let other = if ids[0] == id {
        ids[1]
    } else {
        ids[0]
    };
    assert(ids.contains(other));
    assert(ids_without(ids, id).contains(other));
}

proof fn names_after_detaching(sessions: Roots, terminals: Ptys, id: Seq<char>)
    requires
        well_arranged(sessions, terminals),
        terminals.dom().contains(id),
    ensures
        ({
            let after = detached(sessions, terminals, id);
            forall|a: Seq<char>, b: Seq<char>|
                #[trigger] after.dom().contains(a) && #[trigger] after.dom().contains(b) && a != b
                    ==> after[a].name != after[b].name
        }),
{
    detaching_keeps_the_rest(sessions, terminals, id);
    let after = detached(sessions, terminals, id);
    assert forall|a: Seq<char>, b: Seq<char>| #[trigger] after.dom().contains(a)
        && #[trigger] after.dom().contains(b) && a != b implies after[a].name
        != after[b].name by {
        assert(sessions.dom().contains(a));
        assert(sessions.dom().contains(b));
    }
}

/// Giving a detached terminal a new session keeps the arrangement in order.
proof fn promotion_keeps_order(
    sessions: Roots,
    terminals: Ptys,
    id: Seq<char>,
    session: Seq<char>,
    root: Root,
    owner: Owner,
)
    requires
        well_arranged(sessions, terminals),
        terminals.dom().contains(id),
        !sessions.dom().contains(session),
        root.layout == (Layout::Leaf { id }),
        root.canvas == terminals[id].size,
        owner.session == session,
        forall|s: Seq<char>| #[trigger]
            sessions.dom().contains(s) ==> sessions[s].name != root.name,
    ensures
        well_arranged(
            detached(sessions, terminals, id).insert(session, root),
            terminals.insert(id, Pty { owner, ..terminals[id] }),
        ),
{
    detaching_keeps_the_rest(sessions, terminals, id);
    names_after_detaching(sessions, terminals, id);
    let left = detached(sessions, terminals, id);
    let after = left.insert(session, root);
    let moved = terminals.insert(id, Pty { owner, ..terminals[id] });
    assert(!left.dom().contains(session)) by {
        if left.dom().contains(session) {
            assert(sessions.dom().contains(session));
        }
    }
    assert(usable_size(terminals[id].size));
    assert(root.layout.ids() =~= seq![id]);
    assert(root.layout.ids()[0] == id);
    assert forall|s: Seq<char>| #[trigger] after.dom().contains(s) implies root_in_order(
        s,
        after[s],
        moved,
    ) by {
        if s == session {
            assert(root.layout.ids().no_duplicates());
        } else {
            assert(left.dom().contains(s));
            assert(root_in_order(s, left[s], terminals));
            assert forall|t: Seq<char>| #[trigger] left[s].layout.ids().contains(
                t,
            ) implies moved.dom().contains(t) && moved[t].owner.session == s by {
                assert(terminals.dom().contains(t));
            }
        }
    }
    assert forall|t: Seq<char>| #[trigger] moved.dom().contains(t) implies ({
        let o = moved[t].owner.session;
        &&& after.dom().contains(o)
        &&& after[o].layout.ids().contains(t)
        &&& usable_size(moved[t].size)
    }) by {
        if t != id {
            assert(terminals.dom().contains(t));
        }
    }
    assert forall|a: Seq<char>, b: Seq<char>| #[trigger] after.dom().contains(a)
        && #[trigger] after.dom().contains(b) && a != b implies after[a].name
        != after[b].name by {
        if a != session {
            assert(left.dom().contains(a));
        }
        if b != session {
            assert(left.dom().contains(b));
        }
    }
}

/// Adding a session with one new terminal keeps the arrangement in order.
proof fn adding_keeps_order(
    sessions: Roots,
    terminals: Ptys,
    session: Seq<char>,
    root: Root,
    id: Seq<char>,
    terminal: Pty,
)
    requires
        well_arranged(sessions, terminals),
        !sessions.dom().contains(session),
        !terminals.dom().contains(id),
        root.layout == (Layout::Leaf { id }),
        root.canvas == terminal.size,
        usable_size(terminal.size),
        terminal.owner.session == session,
        forall|s: Seq<char>| #[trigger]
            sessions.dom().contains(s) ==> sessions[s].name != root.name,
    ensures
        well_arranged(sessions.insert(session, root), terminals.insert(id, terminal)),
{
    let after = sessions.insert(session, root);
    let more = terminals.insert(id, terminal);
    assert(root.layout.ids() =~= seq![id]);
    assert(root.layout.ids()[0] == id);
    assert forall|s: Seq<char>| #[trigger] after.dom().contains(s) implies root_in_order(
        s,
        after[s],
        more,
    ) by {
        if s == session {
            assert(root.layout.ids().no_duplicates());
        } else {
            assert(sessions.dom().contains(s));
            assert(root_in_order(s, sessions[s], terminals));
            assert forall|t: Seq<char>| #[trigger] sessions[s].layout.ids().contains(
                t,
            ) implies more.dom().contains(t) && more[t].owner.session == s by {
                assert(terminals.dom().contains(t));
            }
        }
    }
    assert forall|t: Seq<char>| #[trigger] more.dom().contains(t) implies ({
        let o = more[t].owner.session;
        &&& after.dom().contains(o)
        &&& after[o].layout.ids().contains(t)
        &&& usable_size(more[t].size)
    }) by {
        if t != id {
            assert(terminals.dom().contains(t));
        }
    }
    assert forall|a: Seq<char>, b: Seq<char>| #[trigger] after.dom().contains(a)
        && #[trigger] after.dom().contains(b) && a != b implies after[a].name
        != after[b].name by {
        if a != session {
            assert(sessions.dom().contains(a));
        }
        if b != session {
            assert(sessions.dom().contains(b));
        }
    }
}

/// Merging two sessions keeps the arrangement in order.
proof fn merging_keeps_order(
    sessions: Roots,
    terminals: Ptys,
    from: Seq<char>,
    into: Seq<char>,
    root: Root,
    owner: Owner,
)
    requires
        well_arranged(sessions, terminals),
        sessions.dom().contains(from),
        sessions.dom().contains(into),
        from != into,
        root.layout == merged_layout(sessions[into].layout, sessions[from].layout),
        root.name == sessions[into].name,
        root.canvas == sessions[into].canvas,
        root.layout.fits(root.canvas.columns as int, root.canvas.rows as int),
        owner.session == into,
    ensures
        well_arranged(
            sessions.remove(from).insert(into, root),
            reowned(terminals, sessions[from].layout.ids(), owner),
        ),
{
    let a = sessions[into].layout;
    let b = sessions[from].layout;
    let after = sessions.remove(from).insert(into, root);
    let moved = reowned(terminals, b.ids(), owner);
    assert(root_in_order(into, sessions[into], terminals));
    assert(root_in_order(from, sessions[from], terminals));
    merged_layout_facts(a, b);
    assert forall|t: Seq<char>| #[trigger] root.layout.ids().contains(t) == (a.ids().contains(t)
        || b.ids().contains(t)) by {
        let all = a.ids() + b.ids();
        if a.ids().contains(t) {
            let i = choose|i: int| 0 <= i < a.ids().len() && a.ids()[i] == t;
            assert(all[i] == t);
        }
        if b.ids().contains(t) {
            let i = choose|i: int| 0 <= i < b.ids().len() && b.ids()[i] == t;
            assert(all[a.ids().len() + i] == t);
        }
        if all.contains(t) {
            let i = choose|i: int| 0 <= i < all.len() && all[i] == t;
            if i < a.ids().len() {
                assert(a.ids()[i] == t);
            } else {
                assert(b.ids()[i - a.ids().len()] == t);
            }
        }
    }
    assert(root.layout.ids().no_duplicates()) by {
        let all = a.ids() + b.ids();
        assert forall|i: int, j: int| 0 <= i < all.len() && 0 <= j < all.len() && i != j implies all[i]
            != all[j] by {
            let n = a.ids().len() as int;
            if i < n && j >= n {
                assert(a.ids().contains(all[i]));
                assert(b.ids().contains(all[j]));
            } else if j < n && i >= n {
                assert(a.ids().contains(all[j]));
                assert(b.ids().contains(all[i]));
            } else if i < n {
                assert(a.ids()[i] != a.ids()[j]);
            } else {
                assert(b.ids()[i - n] != b.ids()[j - n]);
            }
        }
    }
    assert forall|s: Seq<char>| #[trigger] after.dom().contains(s) implies root_in_order(
        s,
        after[s],
        moved,
    ) by {
        if s == into {
            assert forall|t: Seq<char>| #[trigger] root.layout.ids().contains(
                t,
            ) implies moved.dom().contains(t) && moved[t].owner.session == into by {
                if b.ids().contains(t) {
                    assert(terminals.dom().contains(t));
                } else {
                    assert(a.ids().contains(t));
                    assert(terminals.dom().contains(t));
                }
            }
        } else {
            assert(sessions.dom().contains(s));
            assert(root_in_order(s, sessions[s], terminals));
            assert forall|t: Seq<char>| #[trigger] sessions[s].layout.ids().contains(
                t,
            ) implies moved.dom().contains(t) && moved[t].owner.session == s by {
                assert(terminals.dom().contains(t));
                if b.ids().contains(t) {
                    assert(terminals[t].owner.session == from);
                }
            }
        }
    }
    assert forall|t: Seq<char>| #[trigger] moved.dom().contains(t) implies ({
        let o = moved[t].owner.session;
        &&& after.dom().contains(o)
        &&& after[o].layout.ids().contains(t)
        &&& usable_size(moved[t].size)
    }) by {
        assert(terminals.dom().contains(t));
        let o = terminals[t].owner.session;
        assert(sessions[o].layout.ids().contains(t));
        if b.ids().contains(t) {
            assert(root.layout.ids().contains(t));
        } else if o == into {
            assert(root.layout.ids().contains(t));
        }
    }
    assert forall|x: Seq<char>, y: Seq<char>| #[trigger] after.dom().contains(x)
        && #[trigger] after.dom().contains(y) && x != y implies after[x].name
        != after[y].name by {
        assert(sessions.dom().contains(x));
        assert(sessions.dom().contains(y));
    }
}

/// Whether a layout shows two others side by side: the panes of the first, then
/// those of the second, every one of which lies to the right of every pane of
/// the first; and both parts span all rows of the canvas.
pub open spec fn side_by_side(
    whole: Layout,
    first: Layout,
    second: Layout,
    columns: int,
    rows: int,
) -> bool {
    let panes = whole.placed(0, 0, columns, rows);
    &&& pane_ids(panes) == first.ids() + second.ids()
    &&& forall|i: int, j: int|
        0 <= i < first.ids().len() <= j < panes.len() ==> (#[trigger] panes[i]).left
            + panes[i].columns < (#[trigger] panes[j]).left
    &&& exists|width: int| #[trigger] fills_both(panes, first, second, width, columns, rows)
}

/// Whether panes are those of one layout on the first `width` columns of a
/// canvas and, after one divider column, those of another on the rest of it.
pub open spec fn fills_both(
    panes: Seq<Pane>,
    first: Layout,
    second: Layout,
    width: int,
    columns: int,
    rows: int,
) -> bool {
    &&& 0 < width < columns - 1
    &&& panes == first.placed(0, 0, width, rows) + second.placed(
        width + 1,
        0,
        columns - width - 1,
        rows,
    )
}

/// After a merge the view that was there and the view that joined it stand side
/// by side, whatever layouts the two had.
pub proof fn merged_views_stand_side_by_side(
    destination: Layout,
    source: Layout,
    columns: int,
    rows: int,
)
    requires
        destination.inhabited(),
        source.inhabited(),
        merged_layout(destination, source).fits(columns, rows),
    ensures
        side_by_side(merged_layout(destination, source), destination, source, columns, rows),
{
    let merged = merged_layout(destination, source);
    let width = beside_each_other(destination, source, 0, 0, columns, rows);
    let panes = merged.placed(0, 0, columns, rows);
    let left = destination.placed(0, 0, width, rows);
    let right = source.placed(width + 1, 0, columns - width - 1, rows);
    panes_tile_the_canvas(merged, 0, 0, columns, rows);
    panes_tile_the_canvas(destination, 0, 0, width, rows);
    panes_tile_the_canvas(source, width + 1, 0, columns - width - 1, rows);
    assert(pane_ids(left).len() == left.len());
    assert(pane_ids(panes) =~= pane_ids(left) + pane_ids(right));
    assert forall|i: int, j: int|
        0 <= i < destination.ids().len() <= j < panes.len() implies (#[trigger] panes[i]).left
        + panes[i].columns < (#[trigger] panes[j]).left by {
        assert(panes[i] == left[i]);
        assert(panes[j] == right[j - left.len()]);
    }
    assert(fills_both(panes, destination, source, width, columns, rows));
}

/// Whether every split of a layout has between two and sixty-four children, and
/// at most so many splits stand inside each other.
pub open spec fn shaped(layout: Layout, levels: int) -> bool
    decreases layout,
{
    match layout {
        Layout::Leaf { .. } => levels >= 0,
        Layout::Group { children, .. } => {
            &&& levels >= 0
            &&& 2 <= children.len() <= 64
            &&& forall|i: int| 0 <= i < children.len() ==> shaped(#[trigger] children[i], levels - 1)
        },
    }
}

/// A layout is in order if it shows at most sixty-four terminals, nests at most
/// sixteen splits, and splits into at least two and at most sixty-four parts
/// each time; and not else.
pub proof fn layouts_in_order_are_small(layout: Layout)
    ensures
        layout_problem(layout, 0) is None <==> layout.ids().len() <= 64 && shaped(layout, 16),
{
    if layout.ids().len() <= 64 {
        match layout {
            Layout::Leaf { .. } => {},
            Layout::Group { children, .. } => {
                let n = children.len() as int;
                assert(children.take(n) =~= children);
                problems_of_children(children, 1, n);
            },
        }
    }
}

proof fn problems_by_shape(layout: Layout, depth: nat)
    requires
        depth > 0,
    ensures
        layout_problem(layout, depth) is None <==> shaped(layout, 16 - depth),
    decreases layout, 0int,
{
    match layout {
        Layout::Leaf { .. } => {},
        Layout::Group { children, .. } => {
            let n = children.len() as int;
            assert(children.take(n) =~= children);
            problems_of_children(children, depth + 1, n);
        },
    }
}

proof fn problems_of_children(children: Seq<Layout>, depth: nat, n: int)
    requires
        depth > 0,
        0 <= n <= children.len(),
    ensures
        first_problem(children.take(n), depth) is None <==> forall|i: int|
            0 <= i < n ==> shaped(#[trigger] children[i], 16 - depth),
    decreases children, n,
{
    let taken = children.take(n);
    if n > 0 {
        assert(taken.drop_last() =~= children.take(n - 1));
        assert(taken.last() == children[n - 1]);
        problems_of_children(children, depth, n - 1);
        problems_by_shape(children[n - 1], depth);
    }
}

/// Each terminal of a view gets the grid of its pane, and of the canvas's pixels
/// a share by its cells, rounded down; a terminal that is alone gets the whole
/// canvas.
pub proof fn grids_follow_the_panes(
    resizes: Seq<PtyResize>,
    layout: Layout,
    canvas: TerminalSize,
    i: int,
)
    requires
        follows(resizes, layout, canvas),
        layout.fits(canvas.columns as int, canvas.rows as int),
        layout.inhabited(),
        0 <= i < resizes.len(),
    ensures
        resizes.len() == layout.ids().len(),
        resizes[i].terminal_id@ == layout.ids()[i],
        ({
            let size = resizes[i].terminal_size;
            &&& 2 <= size.columns <= canvas.columns
            &&& 1 <= size.rows <= canvas.rows
            &&& size.pixel_width * canvas.columns <= canvas.pixel_width * size.columns
                < (size.pixel_width + 1) * canvas.columns
            &&& size.pixel_height * canvas.rows <= canvas.pixel_height * size.rows
                < (size.pixel_height + 1) * canvas.rows
            &&& layout is Leaf ==> size == canvas
        }),
{
    let panes = layout.placed(0, 0, canvas.columns as int, canvas.rows as int);
    panes_tile_the_canvas(layout, 0, 0, canvas.columns as int, canvas.rows as int);
    assert(pane_ids(panes)[i] == panes[i].id);
    assert(pane_ids(panes).len() == panes.len());
    let size = resizes[i].terminal_size;
    assert(panes[i].within(0, 0, canvas.columns as int, canvas.rows as int));
    share_is_floored(
        canvas.pixel_width as nat,
        size.columns as nat,
        canvas.columns as nat,
        size.pixel_width as nat,
    );
    share_is_floored(
        canvas.pixel_height as nat,
        size.rows as nat,
        canvas.rows as nat,
        size.pixel_height as nat,
    );
    if layout is Leaf {
        assert(panes[0].columns == canvas.columns && panes[0].rows == canvas.rows);
        whole_share(canvas.pixel_width as nat, canvas.columns as nat);
        whole_share(canvas.pixel_height as nat, canvas.rows as nat);
    }
}

proof fn share_is_floored(pixels: nat, part: nat, whole: nat, share: nat)
    requires
        whole > 0,
        share == (pixels * part) / whole,
    ensures
        share * whole <= pixels * part < (share + 1) * whole,
{
    let product = pixels * part;
    assert((product / whole) * whole <= product < (product / whole + 1) * whole)
        by (nonlinear_arith)
        requires
            whole > 0,
    ;
}

proof fn whole_share(pixels: nat, whole: nat)
    requires
        whole > 0,
    ensures
        (pixels * whole) / whole == pixels,
{
    assert((pixels * whole) / whole == pixels) by (nonlinear_arith)
        requires
            whole > 0,
    ;
}

/// Several attachments give up exactly the leases that they held.
pub proof fn only_their_leases_are_given_up(
    leases: Leases,
    attachments: Seq<Seq<char>>,
    lease: LeaseKind,
)
    ensures
        leases_without_all(leases, attachments).owner(lease) == match leases.owner(lease) {
            Some(owner) => if attachments.contains(owner) {
                None
            } else {
                Some(owner)
            },
            None => None,
        },
    decreases attachments.len(),
{
    if attachments.len() > 0 {
        let head = attachments.drop_last();
        only_their_leases_are_given_up(leases, head, lease);
        assert(head.push(attachments.last()) =~= attachments);
        if let Some(owner) = leases.owner(lease) {
            crate::layout::push_contains(head, attachments.last(), owner);
        }
    }
}

/// When a terminal leaves its session, that session goes on with its other
/// terminals, under its name and on its canvas; it is gone if there are none.
/// Leases that others hold are kept, and no other session changes.
pub proof fn only_the_terminal_leaves(
    sessions: Roots,
    terminals: Ptys,
    id: Seq<char>,
    other: Seq<char>,
    lease: LeaseKind,
)
    requires
        well_arranged(sessions, terminals),
        terminals.dom().contains(id),
        sessions[terminals[id].owner.session].revision < u64::MAX,
    ensures
        ({
            let owner = terminals[id].owner.session;
            let before = sessions[owner];
            let after = detached(sessions, terminals, id);
            let rest = ids_without(before.layout.ids(), id);
            &&& other != owner ==> after.dom().contains(other) == sessions.dom().contains(other)
                && after[other] == sessions[other]
            &&& after.dom().contains(owner) ==> {
                let left = after[owner];
                &&& left.layout.ids() == rest
                &&& !left.layout.ids().contains(id)
                &&& left.name == before.name && left.view == before.view && left.canvas
                    == before.canvas && left.closing == before.closing
                &&& left.revision == before.revision + 1
                &&& before.leases.owner(lease) matches Some(holder) ==> (left.leases.owner(lease)
                    == if terminals[id].attachments.contains(holder) {
                    None
                } else {
                    Some(holder)
                })
            }
            &&& !after.dom().contains(owner) ==> rest.len() == 0
        }),
{
    let owner = terminals[id].owner.session;
    let before = sessions[owner];
    assert(sessions.dom().contains(owner));
    removal_keeps_the_other_terminals(before.layout, id);
    removal_facts(before.layout.ids(), id);
    only_their_leases_are_given_up(before.leases, terminals[id].attachments, lease);
}

/// A terminal that moves into a session of its own is shown there alone, on a
/// canvas of its own grid; it keeps everything but its owner. No other terminal
/// changes, and no session but the one that it left.
pub proof fn a_promotion_moves_one_terminal(
    before: SessionRegistry,
    after: SessionRegistry,
    terminal_id: Seq<char>,
    name: Option<String>,
    now_ms: u64,
    session_id: Seq<char>,
    view_id: Seq<char>,
    change: ViewChange,
    other: Seq<char>,
    other_session: Seq<char>,
)
    requires
        before.wf(),
        before.promoted(after, terminal_id, name, now_ms, session_id, view_id, change),
        other != terminal_id,
        other_session != session_id,
        other_session != before.terminals()[terminal_id].owner.session,
    ensures
        ({
            let moved = after.terminals()[terminal_id];
            let was = before.terminals()[terminal_id];
            let root = after.sessions()[session_id];
            &&& root.layout.ids() == seq![terminal_id]
            &&& root.layout.placed(0, 0, root.canvas.columns as int, root.canvas.rows as int)
                == seq![
                Pane {
                    id: terminal_id,
                    left: 0,
                    top: 0,
                    columns: was.size.columns as int,
                    rows: was.size.rows as int,
                },
            ]
            &&& root.canvas == was.size
            &&& !root.closing && root.revision == 0 && root.leases == Leases::none()
            &&& root.name == moved.owner.name && root.view == moved.owner.view
            &&& moved.owner.session == session_id && moved.owner.created_at_ms == now_ms
            &&& moved.size == was.size && moved.name == was.name && moved.attachments
                == was.attachments && moved.next_sequence == was.next_sequence
            &&& after.terminals().dom() =~= before.terminals().dom()
            &&& after.terminals()[other] == before.terminals()[other]
            &&& after.sessions().dom().contains(other_session) == before.sessions().dom().contains(
                other_session,
            )
            &&& after.sessions()[other_session] == before.sessions()[other_session]
            &&& after.sessions().dom().contains(was.owner.session)
            &&& after.sessions()[was.owner.session].layout.ids() == ids_without(
                before.sessions()[was.owner.session].layout.ids(),
                terminal_id,
            )
            &&& after.sessions()[was.owner.session].name
                == before.sessions()[was.owner.session].name
            &&& name matches Some(chosen) ==> root.name == chosen@
            &&& !bears_name(before.sessions(), root.name)
        }),
{
    before.terminals_are_well_arranged();
    let owner = before.terminals()[terminal_id].owner.session;
    assert(before.sessions().dom().contains(owner));
    removal_keeps_the_other_terminals(before.sessions()[owner].layout, terminal_id);
}

/// Terminals that pass to another session keep everything but their owner, and
/// every other terminal stays as it is.
pub proof fn only_the_owner_changes(
    terminals: Ptys,
    ids: Seq<Seq<char>>,
    owner: Owner,
    id: Seq<char>,
)
    requires
        terminals.dom().contains(id),
    ensures
        ({
            let after = reowned(terminals, ids, owner);
            &&& after.dom().contains(id)
            &&& after[id].owner == if ids.contains(id) {
                owner
            } else {
                terminals[id].owner
            }
            &&& after[id].size == terminals[id].size && after[id].name == terminals[id].name
            &&& after[id].managed == terminals[id].managed && after[id].attachments
                == terminals[id].attachments
            &&& after[id].created_at_ms == terminals[id].created_at_ms && after[id].next_sequence
                == terminals[id].next_sequence
        }),
{
}

/// Two sessions can be merged exactly when they are two, neither is ending or
/// holds a managed terminal, and the joint view is in order and fits the canvas
/// of the one that stays.
pub proof fn sessions_merge_when_they_fit(
    sessions: Roots,
    terminals: Ptys,
    from: Seq<char>,
    into: Seq<char>,
)
    requires
        well_arranged(sessions, terminals),
        sessions.dom().contains(from),
        sessions.dom().contains(into),
    ensures
        ({
            let joint = merged_layout(sessions[into].layout, sessions[from].layout);
            let canvas = sessions[into].canvas;
            merge_problem(sessions, terminals, from, into) is None <==> {
                &&& from != into
                &&& !sessions[from].closing && !sessions[into].closing
                &&& forall|id: Seq<char>| #[trigger]
                    sessions[from].layout.ids().contains(id) ==> !terminals[id].managed
                &&& forall|id: Seq<char>| #[trigger]
                    sessions[into].layout.ids().contains(id) ==> !terminals[id].managed
                &&& joint.ids().len() <= 64 && shaped(joint, 16)
                &&& joint.fits(canvas.columns as int, canvas.rows as int)
            }
        }),
{
    layouts_in_order_are_small(merged_layout(sessions[into].layout, sessions[from].layout));
    unmanaged_parties(sessions[from], terminals);
    unmanaged_parties(sessions[into], terminals);
}

proof fn unmanaged_parties(root: Root, terminals: Ptys)
    ensures
        party_problem(root, terminals) is None <==> !root.closing && forall|id: Seq<char>| #[trigger]
            root.layout.ids().contains(id) ==> !terminals[id].managed,
{
    let ids = root.layout.ids();
    if forall|id: Seq<char>| #[trigger] ids.contains(id) ==> !terminals[id].managed {
        assert forall|i: int| 0 <= i < ids.len() implies !terminals[#[trigger] ids[i]].managed by {
            assert(ids.contains(ids[i]));
        }
    }
    if forall|i: int| 0 <= i < ids.len() ==> !terminals[#[trigger] ids[i]].managed {
        assert forall|id: Seq<char>| #[trigger] ids.contains(id) implies !terminals[id].managed by {
            let i = choose|i: int| 0 <= i < ids.len() && ids[i] == id;
            assert(!terminals[ids[i]].managed);
        }
    }
}

/// A selector that is an identifier means that session, even where another one
/// bears it as its name; any other selector is a name. Either way it means at
/// most one session.
pub proof fn an_identifier_is_meant_before_a_name(
    sessions: Roots,
    terminals: Ptys,
    selector: Seq<char>,
    a: Seq<char>,
    b: Seq<char>,
)
    requires
        well_arranged(sessions, terminals),
    ensures
        sessions.dom().contains(selector) ==> (root_selected(sessions, selector, a) <==> a
            == selector),
        !sessions.dom().contains(selector) ==> (root_selected(sessions, selector, a)
            <==> sessions.dom().contains(a) && sessions[a].name == selector),
        root_selected(sessions, selector, a) && root_selected(sessions, selector, b) ==> a == b,
        root_missing(sessions, selector) ==> !root_selected(sessions, selector, a),
{
}

/// A terminal can get a session of its own exactly when it is not alone where
/// it is, is no managed task and its session is not ending; otherwise the
/// refusal says which of these it is.
pub proof fn a_terminal_with_company_can_leave(
    sessions: Roots,
    terminals: Ptys,
    id: Seq<char>,
    error: SessionManagerError,
)
    requires
        well_arranged(sessions, terminals),
        terminals.dom().contains(id),
    ensures
        ({
            let root = sessions[terminals[id].owner.session];
            let company = exists|other: Seq<char>|
                other != id && #[trigger] root.layout.ids().contains(other);
            &&& promotable(sessions, terminals, id) <==> company && !terminals[id].managed
                && !root.closing
            &&& promotion_refused(sessions, terminals, id, error) ==> !promotable(
                sessions,
                terminals,
                id,
            )
        }),
{
    let owner = terminals[id].owner.session;
    let ids = sessions[owner].layout.ids();
    assert(sessions.dom().contains(owner));
    assert(root_in_order(owner, sessions[owner], terminals));
    assert(ids.contains(id));
    let at = choose|i: int| 0 <= i < ids.len() && ids[i] == id;
    if ids.len() != 1 {
        let i = if at == 0 {
            1int
        } else {
            0
        };
        assert(ids[i] != ids[at]);
        assert(ids.contains(ids[i]));
    } else {
        assert forall|other: Seq<char>| #[trigger] ids.contains(other) implies other == id by {
            let i = choose|i: int| 0 <= i < ids.len() && ids[i] == other;
            assert(i == 0 && at == 0);
        }
    }
}

} // verus!
