//! The live sessions of a daemon, by identifier and by name.
use vstd::prelude::*;
use vstd::seq_lib::*;
use vstd::string::*;

use crate::ids::{hyphenated, random_id};
use crate::journal::Chunk;
use crate::names::{
    contains_in_either, name_given, name_problem, names_exhausted, remaining_texts,
    reserving_and_releasing, without_text, NameError, NameRegistry, Names,
};
use crate::order::{bytes_le_total, bytes_le_transitive, text_le, text_not_after};
use crate::proto::{SessionInfo, TerminalSize};
use crate::session::{Clients, Session, SessionLifecycle};
use crate::terminal::{usable_size, Terminal, TERMINAL_HISTORY_CAPACITY_BYTES};
use crate::text::{between, prefixed, same_text, texts};
use crate::textmap::TextMap;

verus! {

/// Why the daemon could not do something to its sessions.
#[derive(Debug, PartialEq, Eq)]
pub enum SessionManagerError {
    InvalidName { message: String },
    AlreadyExists { name: String },
    AutomaticNameExhausted,
    NotFound { selector: String },
    InvalidView(String),
    Pty(String),
    Spawn(String),
    ShellReporter(String),
    ReaderThread(String),
    WaiterThread(String),
}

impl SessionManagerError {
    /// The error in words.
    pub open spec fn text(self) -> Seq<char> {
        match self {
            SessionManagerError::InvalidName { message } => "invalid session name: "@ + message@,
            SessionManagerError::AlreadyExists { name } => "a session named '"@ + name@
                + "' already exists"@,
            SessionManagerError::AutomaticNameExhausted =>
                "automatic session name sequence is exhausted"@,
            SessionManagerError::NotFound { selector } => "session '"@ + selector@
                + "' was not found"@,
            SessionManagerError::InvalidView(message) => "invalid view: "@ + message@,
            SessionManagerError::Pty(message) => "could not create PTY: "@ + message@,
            SessionManagerError::Spawn(message) => "could not spawn child process: "@ + message@,
            SessionManagerError::ShellReporter(message) => message@,
            SessionManagerError::ReaderThread(message) => "could not start PTY reader thread: "@
                + message@,
            SessionManagerError::WaiterThread(message) => "could not start child waiter thread: "@
                + message@,
        }
    }

    pub fn message(&self) -> (message: String)
        ensures
            message@ == self.text(),
    {
        match self {
            SessionManagerError::InvalidName { message } => prefixed(
                "invalid session name: ",
                message.as_str(),
            ),
            SessionManagerError::AlreadyExists { name } => between(
                "a session named '",
                name.as_str(),
                "' already exists",
            ),
            SessionManagerError::AutomaticNameExhausted =>
                "automatic session name sequence is exhausted".to_owned(),
            SessionManagerError::NotFound { selector } => between(
                "session '",
                selector.as_str(),
                "' was not found",
            ),
            SessionManagerError::InvalidView(message) => prefixed(
                "invalid view: ",
                message.as_str(),
            ),
            SessionManagerError::Pty(message) => prefixed(
                "could not create PTY: ",
                message.as_str(),
            ),
            SessionManagerError::Spawn(message) => prefixed(
                "could not spawn child process: ",
                message.as_str(),
            ),
            SessionManagerError::ShellReporter(message) => message.clone(),
            SessionManagerError::ReaderThread(message) => prefixed(
                "could not start PTY reader thread: ",
                message.as_str(),
            ),
            SessionManagerError::WaiterThread(message) => prefixed(
                "could not start child waiter thread: ",
                message.as_str(),
            ),
        }
    }
}

/// A live session, as it is looked up.
pub struct SessionEntry {
    pub name: String,
}

impl View for SessionEntry {
    type V = Seq<char>;

    open spec fn view(&self) -> Seq<char> {
        self.name@
    }
}

/// A session that is being created: its name is reserved.
pub struct PendingSession {
    pub session_id: String,
    pub name: String,
}

/// The sessions of a daemon.
pub struct SessionManager {
    sessions: TextMap<SessionEntry>,
    names: NameRegistry,
    journal_capacity_bytes: usize,
    checkpoint_interval_bytes: u64,
    ever_had_session: bool,
}

/// Whether no two sessions have the same name.
pub open spec fn distinct_names(sessions: Map<Seq<char>, Seq<char>>) -> bool {
    forall|a: Seq<char>, b: Seq<char>|
        #[trigger] sessions.dom().contains(a) && #[trigger] sessions.dom().contains(b) && a != b
            ==> sessions[a] != sessions[b]
}

/// Whether a name belongs to a live session.
pub open spec fn has_name(sessions: Map<Seq<char>, Seq<char>>, name: Seq<char>) -> bool {
    exists|id: Seq<char>| #[trigger] sessions.dom().contains(id) && sessions[id] == name
}

/// The names that are reserved or belong to a live session.
pub open spec fn taken_names(names: Names, sessions: Map<Seq<char>, Seq<char>>) -> Set<Seq<char>> {
    Set::new(|name: Seq<char>| names.pending.contains(name) || has_name(sessions, name))
}

/// Whether an error is the right answer to a request for a name. `after` is the
/// number of the next automatic name from then on.
pub open spec fn name_refused(
    taken: Set<Seq<char>>,
    next: Option<u64>,
    requested: Option<String>,
    error: SessionManagerError,
    after: Option<u64>,
) -> bool {
    match (requested, error) {
        (Some(name), SessionManagerError::InvalidName { message }) => {
            &&& name_problem(name@) == Some(message@)
            &&& after == next
        },
        (Some(name), SessionManagerError::AlreadyExists { name: existing }) => {
            &&& name_problem(name@) is None
            &&& existing@ == name@
            &&& taken.contains(name@)
            &&& after == next
        },
        (None, SessionManagerError::AutomaticNameExhausted) => {
            &&& names_exhausted(taken, next)
            &&& after is None
        },
        _ => false,
    }
}

/// A chosen name decides alone whether a session can be created: it is refused as
/// invalid exactly when something is wrong with it, refused as existing exactly
/// when it is in order and taken, and otherwise given as it is. The automatic
/// names do not change.
pub proof fn a_chosen_name_decides(
    taken: Set<Seq<char>>,
    next: Option<u64>,
    chosen: String,
    given: Seq<char>,
    error: SessionManagerError,
    after: Option<u64>,
)
    ensures
        name_given(taken, next, Some(chosen), given, after) ==> {
            &&& given == chosen@
            &&& name_problem(chosen@) is None
            &&& !taken.contains(chosen@)
            &&& after == next
        },
        name_refused(taken, next, Some(chosen), error, after) ==> {
            &&& error is InvalidName || error is AlreadyExists
            &&& error is InvalidName <==> name_problem(chosen@) is Some
            &&& error is AlreadyExists <==> name_problem(chosen@) is None && taken.contains(
                chosen@,
            )
            &&& after == next
        },
{
}

/// A session that does not come to be after its name was given leaves the
/// reserved names as they were before, and a chosen name leaves no trace at all.
pub proof fn a_failed_creation_leaves_the_names(
    before: Names,
    sessions: Map<Seq<char>, Seq<char>>,
    requested: Option<String>,
    name: Seq<char>,
    after: Option<u64>,
)
    requires
        name_given(taken_names(before, sessions), before.next, requested, name, after),
    ensures
        without_text(before.pending.push(name), name) == before.pending,
        requested is Some ==> (Names {
            pending: without_text(before.pending.push(name), name),
            next: after,
        }) == before,
{
    reserving_and_releasing(before.pending, name);
}

/// Whether a selector finds a session: by identifier first, then by name.
pub open spec fn selects(
    sessions: Map<Seq<char>, Seq<char>>,
    selector: Seq<char>,
    id: Seq<char>,
) -> bool {
    &&& sessions.dom().contains(id)
    &&& if sessions.dom().contains(selector) {
        id == selector
    } else {
        sessions[id] == selector
    }
}

impl SessionManager {
    /// The names of the live sessions, by identifier.
    pub closed spec fn sessions(&self) -> Map<Seq<char>, Seq<char>> {
        self.sessions@
    }

    pub closed spec fn names(&self) -> Names {
        self.names@
    }

    pub closed spec fn journal_capacity(&self) -> usize {
        self.journal_capacity_bytes
    }

    pub closed spec fn checkpoint_interval(&self) -> u64 {
        self.checkpoint_interval_bytes
    }

    pub closed spec fn had_session(&self) -> bool {
        self.ever_had_session
    }

    /// Live names are pairwise different, and no reserved name is live.
    pub closed spec fn wf(&self) -> bool {
        &&& self.sessions.wf()
        &&& distinct_names(self.sessions@)
        &&& forall|id: Seq<char>| #[trigger]
            self.sessions@.dom().contains(id) ==> !self.names@.pending.contains(
                self.sessions@[id],
            )
        &&& self.checkpoint_interval_bytes >= 1
    }

    /// What every well-formed manager keeps.
    pub proof fn names_are_unique(&self)
        requires
            self.wf(),
        ensures
            distinct_names(self.sessions()),
            forall|id: Seq<char>| #[trigger]
                self.sessions().dom().contains(id) ==> !self.names().pending.contains(
                    self.sessions()[id],
                ),
    {
    }

    pub fn new(journal_capacity_bytes: usize, checkpoint_interval_bytes: u64) -> (manager: Self)
        ensures
            manager.wf(),
            manager.sessions() == Map::<Seq<char>, Seq<char>>::empty(),
            manager.names() == (Names { pending: Seq::empty(), next: Some(1) }),
            manager.journal_capacity() == journal_capacity_bytes,
            manager.checkpoint_interval() == if checkpoint_interval_bytes == 0 {
                1
            } else {
                checkpoint_interval_bytes
            },
            !manager.had_session(),
    {
        SessionManager {
            sessions: TextMap::new(),
            names: NameRegistry::default(),
            journal_capacity_bytes,
            checkpoint_interval_bytes: if checkpoint_interval_bytes == 0 {
                1
            } else {
                checkpoint_interval_bytes
            },
            ever_had_session: false,
        }
    }

    /// The names of the live sessions.
    fn live_names(&self) -> (names: Vec<String>)
        requires
            self.sessions.wf(),
        ensures
            forall|name: Seq<char>| #[trigger]
                texts(names@).contains(name) <==> has_name(self.sessions@, name),
    {
        let mut names: Vec<String> = Vec::new();
        let mut index: usize = 0;
        proof {
            self.sessions.listing_is_complete();
        }
        while index < self.sessions.len()
            invariant
                index <= self.sessions.listed().len(),
                names@.len() == index,
                forall|i: int|
                    0 <= i < index ==> (#[trigger] names@[i])@ == self.sessions.listed()[i].1,
            decreases self.sessions.listed().len() - index,
        {
            let (_id, entry) = self.sessions.entry(index);
            names.push(entry.name.clone());
            index += 1;
        }
        proof {
            let live = texts(names@);
            let listed = self.sessions.listed();
            assert forall|name: Seq<char>| #[trigger] live.contains(name) <==> has_name(
                self.sessions@,
                name,
            ) by {
                if live.contains(name) {
                    let i = choose|i: int| 0 <= i < live.len() && live[i] == name;
                    assert(names@[i]@ == listed[i].1);
                    assert(self.sessions@.dom().contains(listed[i].0));
                }
                if has_name(self.sessions@, name) {
                    let id = choose|id: Seq<char>| #[trigger]
                        self.sessions@.dom().contains(id) && self.sessions@[id] == name;
                    let i = choose|i: int| 0 <= i < listed.len() && (#[trigger] listed[i]).0 == id;
                    assert(names@[i]@ == listed[i].1);
                    assert(live[i] == name);
                }
            }
        }
        names
    }

    /// Reserves a chosen name, or the next automatic one.
    pub fn reserve_name(&mut self, requested_name: Option<String>) -> (result: Result<
        String,
        SessionManagerError,
    >)
        requires
            old(self).wf(),
        ensures
            final(self).wf(),
            final(self).sessions() == old(self).sessions(),
            final(self).journal_capacity() == old(self).journal_capacity(),
            final(self).checkpoint_interval() == old(self).checkpoint_interval(),
            final(self).had_session() == old(self).had_session(),
            match result {
                Ok(reserved) => {
                    &&& name_given(
                        taken_names(old(self).names(), old(self).sessions()),
                        old(self).names().next,
                        requested_name,
                        reserved@,
                        final(self).names().next,
                    )
                    &&& final(self).names().pending == old(self).names().pending.push(reserved@)
                },
                Err(error) => {
                    &&& name_refused(
                        taken_names(old(self).names(), old(self).sessions()),
                        old(self).names().next,
                        requested_name,
                        error,
                        final(self).names().next,
                    )
                    &&& final(self).names().pending == old(self).names().pending
                },
            },
    {
        let live = self.live_names();
        let ghost before = self.names@;
        proof {
            assert forall|text: Seq<char>| #[trigger] (before.pending + texts(live@)).contains(
                text,
            ) == (before.pending.contains(text) || has_name(self.sessions@, text)) by {
                contains_in_either(before.pending, texts(live@), text);
            }
            assert forall|text: Seq<char>, other: Seq<char>| #[trigger]
                before.pending.push(text).contains(other) == (before.pending.contains(other)
                    || text == other) by {
                crate::layout::push_contains(before.pending, text, other);
            }
        }
        match requested_name {
            Some(name) => match self.names.acquire(&live, name) {
                Ok(reserved) => Ok(reserved),
                Err(NameError::Invalid { message }) => Err(
                    SessionManagerError::InvalidName { message },
                ),
                Err(NameError::AlreadyExists { name }) => Err(
                    SessionManagerError::AlreadyExists { name },
                ),
                Err(NameError::AutomaticNameExhausted) => Err(
                    SessionManagerError::AutomaticNameExhausted,
                ),
            },
            None => match self.names.acquire_automatic(&live) {
                Ok(reserved) => Ok(reserved),
                Err(_) => Err(SessionManagerError::AutomaticNameExhausted),
            },
        }
    }

    /// Gives up the name of a session that did not come to be.
    pub fn abandon_name(&mut self, name: &str)
        requires
            old(self).wf(),
        ensures
            final(self).wf(),
            final(self).sessions() == old(self).sessions(),
            final(self).names() == (Names {
                pending: without_text(old(self).names().pending, name@),
                ..old(self).names()
            }),
            final(self).journal_capacity() == old(self).journal_capacity(),
            final(self).checkpoint_interval() == old(self).checkpoint_interval(),
            final(self).had_session() == old(self).had_session(),
    {
        let ghost before = self.names@.pending;
        self.names.release(name);
        proof {
            assert forall|other: Seq<char>| #[trigger] self.names@.pending.contains(
                other,
            ) implies before.contains(other) by {
                remaining_texts(before, name@, other);
            }
        }
    }

    /// Begins to create a session under an identifier that was drawn for it:
    /// reserves its name. Whether that succeeds is for the name alone to decide.
    pub fn begin_create_as(&mut self, session_id: String, requested_name: Option<String>) -> (
    result: Result<PendingSession, SessionManagerError>)
        requires
            old(self).wf(),
        ensures
            final(self).wf(),
            final(self).sessions() == old(self).sessions(),
            final(self).journal_capacity() == old(self).journal_capacity(),
            final(self).checkpoint_interval() == old(self).checkpoint_interval(),
            final(self).had_session() == old(self).had_session(),
            match result {
                Ok(pending) => {
                    &&& pending.session_id@ == session_id@
                    &&& name_given(
                        taken_names(old(self).names(), old(self).sessions()),
                        old(self).names().next,
                        requested_name,
                        pending.name@,
                        final(self).names().next,
                    )
                    &&& final(self).names().pending == old(self).names().pending.push(
                        pending.name@,
                    )
                },
                Err(error) => {
                    &&& name_refused(
                        taken_names(old(self).names(), old(self).sessions()),
                        old(self).names().next,
                        requested_name,
                        error,
                        final(self).names().next,
                    )
                    &&& final(self).names().pending == old(self).names().pending
                },
            },
    {
        match self.reserve_name(requested_name) {
            Ok(name) => Ok(PendingSession { session_id, name }),
            Err(error) => Err(error),
        }
    }

    /// Begins to create a session: draws its identifier and reserves its name.
    pub fn begin_create(&mut self, requested_name: Option<String>) -> (result: Result<
        PendingSession,
        SessionManagerError,
    >)
        requires
            old(self).wf(),
        ensures
            final(self).wf(),
            final(self).sessions() == old(self).sessions(),
            final(self).journal_capacity() == old(self).journal_capacity(),
            final(self).checkpoint_interval() == old(self).checkpoint_interval(),
            final(self).had_session() == old(self).had_session(),
            match result {
                Ok(pending) => {
                    &&& hyphenated(pending.session_id@)
                    &&& name_given(
                        taken_names(old(self).names(), old(self).sessions()),
                        old(self).names().next,
                        requested_name,
                        pending.name@,
                        final(self).names().next,
                    )
                    &&& final(self).names().pending == old(self).names().pending.push(
                        pending.name@,
                    )
                },
                Err(error) => {
                    &&& name_refused(
                        taken_names(old(self).names(), old(self).sessions()),
                        old(self).names().next,
                        requested_name,
                        error,
                        final(self).names().next,
                    )
                    &&& final(self).names().pending == old(self).names().pending
                },
            },
    {
        self.begin_create_as(random_id(), requested_name)
    }

    /// Turns a session that is being created into a live one, once its process
    /// runs. It takes the place of a session with the same identifier, should
    /// the draw ever have given one identifier twice.
    pub fn finish_create(
        &mut self,
        pending: PendingSession,
        created_at_ms: u64,
        terminal_size: TerminalSize,
        process_observation_enabled: bool,
    ) -> (session: Session)
        requires
            old(self).wf(),
            old(self).names().pending.contains(pending.name@),
            usable_size(terminal_size),
        ensures
            final(self).wf(),
            final(self).sessions() == old(self).sessions().insert(
                pending.session_id@,
                pending.name@,
            ),
            final(self).names() == (Names {
                pending: without_text(old(self).names().pending, pending.name@),
                ..old(self).names()
            }),
            final(self).had_session(),
            final(self).journal_capacity() == old(self).journal_capacity(),
            final(self).checkpoint_interval() == old(self).checkpoint_interval(),
            session.wf(),
            session.id() == pending.session_id@,
            session.name() == pending.name@,
            session.created_at() == created_at_ms,
            session.interval() == old(self).checkpoint_interval(),
            session.clients() == Clients::none(),
            session.lifecycle() == SessionLifecycle::Running,
            session.observes_processes() == process_observation_enabled,
            session.terminal()@ == Terminal::fresh(
                terminal_size,
                TERMINAL_HISTORY_CAPACITY_BYTES as nat,
            ),
            session.terminal().journal().next() == 0,
            session.terminal().journal().retained() == Seq::<Chunk>::empty(),
            session.terminal().journal().capacity() == if old(self).journal_capacity() == 0 {
                1
            } else {
                old(self).journal_capacity() as nat
            },
    {
        let ghost before = self.names@.pending;
        let ghost live = self.sessions@;
        self.names.release(pending.name.as_str());
        self.sessions.put(
            pending.session_id.as_str(),
            SessionEntry { name: pending.name.clone() },
        );
        self.ever_had_session = true;
        proof {
            assert forall|other: Seq<char>| #[trigger] self.names@.pending.contains(
                other,
            ) implies before.contains(other) && other != pending.name@ by {
                remaining_texts(before, pending.name@, other);
            }
            assert forall|id: Seq<char>| #[trigger] self.sessions@.dom().contains(
                id,
            ) implies !self.names@.pending.contains(self.sessions@[id]) by {
                if id != pending.session_id@ {
                    assert(live.dom().contains(id));
                }
            }
            assert forall|a: Seq<char>, b: Seq<char>| #[trigger] self.sessions@.dom().contains(a)
                && #[trigger] self.sessions@.dom().contains(b) && a != b implies self.sessions@[a]
                != self.sessions@[b] by {
                if a != pending.session_id@ {
                    assert(live.dom().contains(a));
                }
                if b != pending.session_id@ {
                    assert(live.dom().contains(b));
                }
            }
        }
        Session::new(
            pending.session_id,
            pending.name,
            created_at_ms,
            terminal_size,
            self.journal_capacity_bytes,
            self.checkpoint_interval_bytes,
            process_observation_enabled,
        )
    }

    /// Finds a session by identifier, or else by name.
    pub fn resolve(&self, selector: &str) -> (result: Result<String, SessionManagerError>)
        requires
            self.wf(),
        ensures
            match result {
                Ok(id) => selects(self.sessions(), selector@, id@),
                Err(error) => {
                    &&& error matches SessionManagerError::NotFound { selector: missing } && missing@
                        == selector@
                    &&& !self.sessions().dom().contains(selector@)
                    &&& !has_name(self.sessions(), selector@)
                },
            },
    {
        if self.sessions.contains(selector) {
            return Ok(selector.to_owned());
        }
        let mut index: usize = 0;
        proof {
            self.sessions.listing_is_complete();
        }
        while index < self.sessions.len()
            invariant
                index <= self.sessions.listed().len(),
                self.wf(),
                !self.sessions@.dom().contains(selector@),
                forall|i: int|
                    0 <= i < self.sessions.listed().len() ==> self.sessions@.dom().contains(
                        (#[trigger] self.sessions.listed()[i]).0,
                    ) && self.sessions@[self.sessions.listed()[i].0]
                        == self.sessions.listed()[i].1,
                forall|key: Seq<char>| #[trigger]
                    self.sessions@.dom().contains(key) ==> exists|i: int|
                        0 <= i < self.sessions.listed().len() && (
                        #[trigger] self.sessions.listed()[i]).0 == key,
                forall|i: int|
                    0 <= i < index ==> (#[trigger] self.sessions.listed()[i]).1 != selector@,
            decreases self.sessions.listed().len() - index,
        {
            let (id, entry) = self.sessions.entry(index);
            assert(self.sessions@.dom().contains(self.sessions.listed()[index as int].0));
            if same_text(entry.name.as_str(), selector) {
                return Ok(id.clone());
            }
            index += 1;
        }
        proof {
            if has_name(self.sessions@, selector@) {
                let id = choose|id: Seq<char>| #[trigger]
                    self.sessions@.dom().contains(id) && self.sessions@[id] == selector@;
                let i = choose|i: int|
                    0 <= i < self.sessions.listed().len() && (
                    #[trigger] self.sessions.listed()[i]).0 == id;
                assert(self.sessions.listed()[i].1 == selector@);
            }
        }
        Err(SessionManagerError::NotFound { selector: selector.to_owned() })
    }

    /// Forgets a session that has ended.
    pub fn remove(&mut self, session_id: &str)
        requires
            old(self).wf(),
        ensures
            final(self).wf(),
            final(self).sessions() == old(self).sessions().remove(session_id@),
            final(self).names() == old(self).names(),
            final(self).had_session() == old(self).had_session(),
            final(self).journal_capacity() == old(self).journal_capacity(),
            final(self).checkpoint_interval() == old(self).checkpoint_interval(),
    {
        let ghost live = self.sessions@;
        let _entry = self.sessions.take(session_id);
        proof {
            assert(self.sessions@ =~= live.remove(session_id@));
            assert forall|id: Seq<char>| #[trigger] self.sessions@.dom().contains(
                id,
            ) implies !self.names@.pending.contains(self.sessions@[id]) by {
                assert(live.dom().contains(id));
            }
            assert forall|a: Seq<char>, b: Seq<char>| #[trigger] self.sessions@.dom().contains(a)
                && #[trigger] self.sessions@.dom().contains(b) && a != b implies self.sessions@[a]
                != self.sessions@[b] by {
                assert(live.dom().contains(a));
                assert(live.dom().contains(b));
            }
        }
    }

    /// The identifiers of all live sessions, each of them once.
    ///
    /// A daemon-wide transition takes this list while no session can be created.
    pub fn snapshot_for_cooperative_restart(&self) -> (ids: Vec<String>)
        requires
            self.wf(),
        ensures
            ids@.len() == self.sessions().dom().len(),
            texts(ids@).no_duplicates(),
            forall|id: Seq<char>| #[trigger]
                texts(ids@).contains(id) <==> self.sessions().dom().contains(id),
    {
        let mut ids: Vec<String> = Vec::new();
        let mut index: usize = 0;
        proof {
            self.sessions.listing_is_complete();
        }
        while index < self.sessions.len()
            invariant
                index <= self.sessions.listed().len(),
                ids@.len() == index,
                forall|i: int|
                    0 <= i < index ==> (#[trigger] ids@[i])@ == self.sessions.listed()[i].0,
            decreases self.sessions.listed().len() - index,
        {
            let (id, _entry) = self.sessions.entry(index);
            ids.push(id.clone());
            index += 1;
        }
        proof {
            let listed = self.sessions.listed();
            let all = texts(ids@);
            assert forall|i: int| 0 <= i < all.len() implies #[trigger] all[i] == listed[i].0 by {
                assert(ids@[i]@ == listed[i].0);
            }
            assert forall|id: Seq<char>| #[trigger] all.contains(
                id,
            ) <==> self.sessions@.dom().contains(id) by {
                if all.contains(id) {
                    let i = choose|i: int| 0 <= i < all.len() && all[i] == id;
                    assert(self.sessions@.dom().contains(listed[i].0));
                }
                if self.sessions@.dom().contains(id) {
                    let i = choose|i: int| 0 <= i < listed.len() && (#[trigger] listed[i]).0 == id;
                    assert(all[i] == id);
                }
            }
        }
        ids
    }

    pub fn session_count(&self) -> (count: usize)
        requires
            self.wf(),
        ensures
            count == self.sessions().dom().len(),
    {
        proof {
            self.sessions.listing_is_complete();
        }
        self.sessions.len()
    }

    pub fn ever_had_session(&self) -> (had: bool)
        ensures
            had == self.had_session(),
    {
        self.ever_had_session
    }
}

/// The order in which sessions are listed: by creation time, then by name.
pub open spec fn listed_before(a: SessionInfo, b: SessionInfo) -> bool {
    a.created_at_ms < b.created_at_ms || (a.created_at_ms == b.created_at_ms && text_le(
        a.name@,
        b.name@,
    ))
}

/// Whether sessions are in listing order.
pub open spec fn in_listing_order(list: Seq<SessionInfo>) -> bool {
    forall|i: int, j: int|
        0 <= i < j < list.len() ==> listed_before(#[trigger] list[i], #[trigger] list[j])
}

fn not_after(a: &SessionInfo, b: &SessionInfo) -> (before: bool)
    ensures
        before == listed_before(*a, *b),
{
    a.created_at_ms < b.created_at_ms || (a.created_at_ms == b.created_at_ms && text_not_after(
        a.name.as_str(),
        b.name.as_str(),
    ))
}

proof fn listing_is_transitive(a: SessionInfo, b: SessionInfo, c: SessionInfo)
    requires
        listed_before(a, b),
        listed_before(b, c),
    ensures
        listed_before(a, c),
{
    if a.created_at_ms == b.created_at_ms && b.created_at_ms == c.created_at_ms {
        bytes_le_transitive(
            vstd::utf8::encode_utf8(a.name@),
            vstd::utf8::encode_utf8(b.name@),
            vstd::utf8::encode_utf8(c.name@),
        );
    }
}

proof fn listing_is_total(a: SessionInfo, b: SessionInfo)
    ensures
        listed_before(a, b) || listed_before(b, a),
{
    bytes_le_total(vstd::utf8::encode_utf8(a.name@), vstd::utf8::encode_utf8(b.name@));
}

/// Puts sessions into listing order.
pub fn sort_sessions(sessions: Vec<SessionInfo>) -> (sorted: Vec<SessionInfo>)
    ensures
        in_listing_order(sorted@),
        sorted@.to_multiset() == sessions@.to_multiset(),
{
    let mut sorted: Vec<SessionInfo> = Vec::new();
    let mut index: usize = 0;
    assert(sessions@.take(0) =~= Seq::empty());
    assert(sorted@ =~= Seq::empty());
    while index < sessions.len()
        invariant
            index <= sessions@.len(),
            in_listing_order(sorted@),
            sorted@.to_multiset() == sessions@.take(index as int).to_multiset(),
        decreases sessions@.len() - index,
    {
        broadcast use group_to_multiset_ensures;

        let info = sessions[index].clone();
        let mut at: usize = sorted.len();
        while at > 0 && !not_after(&sorted[at - 1], &info)
            invariant
                at <= sorted@.len(),
                in_listing_order(sorted@),
                forall|i: int| at <= i < sorted@.len() ==> !listed_before(#[trigger] sorted@[i], info),
            decreases at,
        {
            at -= 1;
        }
        let ghost before = sorted@;
        sorted.insert(at, info);
        proof {
            let after = sorted@;
            assert(after =~= before.insert(at as int, info));
            assert forall|i: int, j: int| 0 <= i < j < after.len() implies listed_before(
                #[trigger] after[i],
                #[trigger] after[j],
            ) by {
                if i < at {
                    assert(after[i] == before[i]);
                    if j < at {
                        assert(after[j] == before[j]);
                    } else if j == at {
                        if i < at - 1 {
                            listing_is_transitive(before[i], before[at - 1], info);
                        }
                    } else {
                        assert(after[j] == before[j - 1]);
                    }
                } else if i == at {
                    assert(after[j] == before[j - 1]);
                    listing_is_total(info, before[j - 1]);
                } else {
                    assert(after[i] == before[i - 1]);
                    assert(after[j] == before[j - 1]);
                }
            }
            to_multiset_insert(before, at as int, info);
            let taken = sessions@.take(index + 1);
            assert(taken =~= sessions@.take(index as int).push(info));
            sessions@.take(index as int).to_multiset_ensures();
        }
        index += 1;
    }
    assert(sessions@.take(index as int) =~= sessions@);
    sorted
}

/// A selector that is an identifier means that session, even where another one
/// bears it as its name; any other selector is a name. Either way it means at
/// most one session.
pub proof fn an_identifier_comes_first(
    sessions: Map<Seq<char>, Seq<char>>,
    selector: Seq<char>,
    a: Seq<char>,
    b: Seq<char>,
)
    requires
        distinct_names(sessions),
    ensures
        sessions.dom().contains(selector) ==> (selects(sessions, selector, a) <==> a == selector),
        !sessions.dom().contains(selector) && selects(sessions, selector, a) ==> sessions[a]
            == selector,
        sessions.dom().contains(a) && sessions[a] == selector && !sessions.dom().contains(selector)
            ==> selects(sessions, selector, a),
        selects(sessions, selector, a) && selects(sessions, selector, b) ==> a == b,
{
}

/// Sessions are listed from the oldest to the newest, and those of one moment
/// by name.
pub proof fn sessions_are_listed_by_age(list: Seq<SessionInfo>, i: int, j: int)
    requires
        in_listing_order(list),
        0 <= i < j < list.len(),
    ensures
        list[i].created_at_ms <= list[j].created_at_ms,
        list[i].created_at_ms == list[j].created_at_ms ==> text_le(list[i].name@, list[j].name@),
{
    assert(listed_before(list[i], list[j]));
}

} // verus!
