//! What the daemon keeps of sessions that have ended.
use vstd::prelude::*;
use vstd::string::*;

use crate::client_archive::now_ms;
use crate::ids::{identifier, is_identifier};
use crate::ipc::{inside, join_path};
use crate::order::{insertion_keeps_the_newest_first, newest_first, same_by_time};
use crate::proto::{SessionInfo, SessionStatus};
use crate::text::{prefixed, same_text};
use crate::topology::{TerminalInfo, ViewInfo};

verus! {

/// One day in milliseconds.
pub const DAY_MS: u64 = 86_400_000;

/// How a terminal ended.
#[derive(Debug, Clone, Copy, PartialEq, Eq, Structural)]
pub enum TerminalEndReason {
    Exited { exit_code: Option<u32> },
    /// The daemon that ran the terminal is gone.
    Missing,
}

/// What is known of a terminal that has ended; a time of zero means that the
/// end was not recorded.
#[derive(Debug, PartialEq, Eq)]
pub struct ArchivedTerminalInfo {
    pub terminal_id: String,
    pub ended_at_ms: u64,
    pub reason: TerminalEndReason,
}

impl Clone for ArchivedTerminalInfo {
    fn clone(&self) -> (copy: Self)
        ensures
            copy == *self,
    {
        ArchivedTerminalInfo {
            terminal_id: self.terminal_id.clone(),
            ended_at_ms: self.ended_at_ms,
            reason: self.reason,
        }
    }
}

/// What is known of a session that has ended; a time of zero means that it is
/// still being recorded.
#[derive(Debug, PartialEq, Eq)]
pub struct SessionArchive {
    pub session: SessionInfo,
    pub view: ViewInfo,
    pub terminals: Vec<ArchivedTerminalInfo>,
    pub archived_at_ms: u64,
    pub expires_at_ms: u64,
}

/// Why an archive could not be used.
#[derive(Debug, Clone, Copy, PartialEq, Eq, Structural)]
pub enum ArchiveError {
    InvalidArchiveId,
    InvalidTerminalId,
    Unavailable,
    TerminalNotFound,
}

impl ArchiveError {
    pub open spec fn text(self) -> Seq<char> {
        match self {
            ArchiveError::InvalidArchiveId => "invalid archive ID"@,
            ArchiveError::InvalidTerminalId => "invalid terminal ID"@,
            ArchiveError::Unavailable => "archive is unavailable or expired"@,
            ArchiveError::TerminalNotFound => "archived terminal not found"@,
        }
    }

    /// The error in words.
    pub fn message(&self) -> (message: &'static str)
        ensures
            message@ == self.text(),
    {
        match self {
            ArchiveError::InvalidArchiveId => "invalid archive ID",
            ArchiveError::InvalidTerminalId => "invalid terminal ID",
            ArchiveError::Unavailable => "archive is unavailable or expired",
            ArchiveError::TerminalNotFound => "archived terminal not found",
        }
    }
}

/// Where archives are kept, and for how long.
#[derive(Debug, PartialEq, Eq)]
pub struct ArchiveStore {
    directory: String,
    retention_ms: u64,
}

/// A time after another, as far as it can be held.
pub open spec fn later(time: u64, by: u64) -> u64 {
    if time + by <= u64::MAX {
        (time + by) as u64
    } else {
        u64::MAX
    }
}

/// The terminals without one of them.
pub open spec fn without_terminal(
    list: Seq<ArchivedTerminalInfo>,
    id: Seq<char>,
) -> Seq<ArchivedTerminalInfo>
    decreases list.len(),
{
    if list.len() == 0 {
        list
    } else {
        let rest = without_terminal(list.drop_last(), id);
        if list.last().terminal_id@ == id {
            rest
        } else {
            rest.push(list.last())
        }
    }
}

/// The terminals with others recorded anew, each of them once and last.
pub open spec fn recorded(
    list: Seq<ArchivedTerminalInfo>,
    ended: Seq<ArchivedTerminalInfo>,
) -> Seq<ArchivedTerminalInfo>
    decreases ended.len(),
{
    if ended.len() == 0 {
        list
    } else {
        without_terminal(recorded(list, ended.drop_last()), ended.last().terminal_id@).push(
            ended.last(),
        )
    }
}

/// Whether a terminal is in a view.
pub open spec fn in_view(view: ViewInfo, id: Seq<char>) -> bool {
    exists|i: int| 0 <= i < view.terminals@.len() && (#[trigger] view.terminals@[i]).terminal_id@ == id
}

/// Whether a view is an earlier one that merely lost terminals.
pub open spec fn merely_shrank(view: ViewInfo, previous: ViewInfo) -> bool {
    &&& view.terminals@.len() < previous.terminals@.len()
    &&& forall|i: int|
        0 <= i < view.terminals@.len() ==> in_view(
            previous,
            (#[trigger] view.terminals@[i]).terminal_id@,
        )
}

fn has_terminal(terminals: &Vec<TerminalInfo>, id: &str) -> (found: bool)
    ensures
        found == exists|i: int|
            0 <= i < terminals@.len() && (#[trigger] terminals@[i]).terminal_id@ == id@,
{
    let mut index: usize = 0;
    while index < terminals.len()
        invariant
            index <= terminals@.len(),
            forall|i: int| 0 <= i < index ==> (#[trigger] terminals@[i]).terminal_id@ != id@,
        decreases terminals@.len() - index,
    {
        if same_text(terminals[index].terminal_id.as_str(), id) {
            return true;
        }
        index += 1;
    }
    false
}

fn view_merely_shrank(view: &ViewInfo, previous: &ViewInfo) -> (shrank: bool)
    ensures
        shrank == merely_shrank(*view, *previous),
{
    if view.terminals.len() >= previous.terminals.len() {
        return false;
    }
    let mut index: usize = 0;
    while index < view.terminals.len()
        invariant
            index <= view.terminals@.len(),
            forall|i: int|
                0 <= i < index ==> in_view(
                    *previous,
                    (#[trigger] view.terminals@[i]).terminal_id@,
                ),
        decreases view.terminals@.len() - index,
    {
        if !has_terminal(&previous.terminals, view.terminals[index].terminal_id.as_str()) {
            assert(!in_view(*previous, view.terminals@[index as int].terminal_id@));
            return false;
        }
        index += 1;
    }
    true
}

/// Leaves one terminal out.
fn remove_terminal(list: &Vec<ArchivedTerminalInfo>, id: &str) -> (rest: Vec<ArchivedTerminalInfo>)
    ensures
        rest@ == without_terminal(list@, id@),
{
    let mut rest: Vec<ArchivedTerminalInfo> = Vec::new();
    let mut index: usize = 0;
    assert(rest@ =~= without_terminal(list@.take(0), id@));
    while index < list.len()
        invariant
            index <= list@.len(),
            rest@ == without_terminal(list@.take(index as int), id@),
        decreases list@.len() - index,
    {
        proof {
            let taken = list@.take(index + 1);
            assert(taken.drop_last() =~= list@.take(index as int));
            assert(taken.last() == list@[index as int]);
        }
        if !same_text(list[index].terminal_id.as_str(), id) {
            rest.push(list[index].clone());
        }
        index += 1;
    }
    assert(list@.take(index as int) =~= list@);
    rest
}

fn record_terminals(list: Vec<ArchivedTerminalInfo>, ended: &Vec<ArchivedTerminalInfo>) -> (result:
    Vec<ArchivedTerminalInfo>)
    ensures
        result@ == recorded(list@, ended@),
{
    let mut result = list;
    let mut index: usize = 0;
    assert(ended@.take(0) =~= Seq::empty());
    while index < ended.len()
        invariant
            index <= ended@.len(),
            result@ == recorded(list@, ended@.take(index as int)),
        decreases ended@.len() - index,
    {
        proof {
            let taken = ended@.take(index + 1);
            assert(taken.drop_last() =~= ended@.take(index as int));
            assert(taken.last() == ended@[index as int]);
        }
        result = remove_terminal(&result, ended[index].terminal_id.as_str());
        result.push(ended[index].clone());
        index += 1;
    }
    assert(ended@.take(index as int) =~= ended@);
    result
}

/// The archive to write at a given time. Terminals that ended are added to
/// those recorded before; while terminals merely end, the last full view is
/// kept.
pub fn archive_at(
    archive: SessionArchive,
    previous: Option<SessionArchive>,
    ended: &Vec<ArchivedTerminalInfo>,
    complete: bool,
    now: u64,
    retention_ms: u64,
) -> (saved: SessionArchive)
    ensures
        saved.session == (SessionInfo { status: SessionStatus::Exited, ..archive.session }),
        saved.archived_at_ms == if complete {
            now
        } else {
            0
        },
        saved.expires_at_ms == later(now, retention_ms),
        match previous {
            Some(previous) => {
                &&& saved.view == if merely_shrank(archive.view, previous.view) {
                    previous.view
                } else {
                    archive.view
                }
                &&& saved.terminals@ == recorded(previous.terminals@, ended@)
            },
            None => {
                &&& saved.view == archive.view
                &&& saved.terminals@ == recorded(archive.terminals@, ended@)
            },
        },
{
    let SessionArchive { session, view, terminals, .. } = archive;
    let (view, terminals) = match previous {
        Some(previous) => {
            let shrank = view_merely_shrank(&view, &previous.view);
            (
                if shrank {
                    previous.view
                } else {
                    view
                },
                previous.terminals,
            )
        },
        None => (view, terminals),
    };
    let mut session = session;
    session.status = SessionStatus::Exited;
    SessionArchive {
        session,
        view,
        terminals: record_terminals(terminals, ended),
        archived_at_ms: if complete {
            now
        } else {
            0
        },
        expires_at_ms: now.saturating_add(retention_ms),
    }
}

/// Whether every terminal has an identifier.
pub open spec fn identified(ended: Seq<ArchivedTerminalInfo>) -> bool {
    forall|i: int| 0 <= i < ended.len() ==> identifier((#[trigger] ended[i]).terminal_id@)
}

/// Whether an archive can be looked at.
pub open spec fn available(archive: SessionArchive, now: u64) -> bool {
    archive.archived_at_ms != 0 && archive.expires_at_ms > now
}

/// The archive if it can be looked at.
pub fn available_at(archive: SessionArchive, now: u64) -> (result: Result<
    SessionArchive,
    ArchiveError,
>)
    ensures
        result == if available(archive, now) {
            Ok(archive)
        } else {
            Err(ArchiveError::Unavailable)
        },
{
    if archive.archived_at_ms == 0 || archive.expires_at_ms <= now {
        return Err(ArchiveError::Unavailable);
    }
    Ok(archive)
}

/// What becomes of an archive when archives are listed.
#[derive(Debug, PartialEq, Eq)]
pub enum ListedArchive {
    Shown(SessionArchive),
    /// It is still being recorded.
    Hidden,
    /// It is not kept any more and is removed.
    Removed,
}

/// Decides about an archive when archives are listed.
pub fn list_entry(archive: SessionArchive, now: u64) -> (entry: ListedArchive)
    ensures
        entry == if archive.archived_at_ms == 0 {
            ListedArchive::Hidden
        } else if archive.expires_at_ms <= now {
            ListedArchive::Removed
        } else {
            ListedArchive::Shown(archive)
        },
{
    if archive.archived_at_ms == 0 {
        return ListedArchive::Hidden;
    }
    if archive.expires_at_ms <= now {
        return ListedArchive::Removed;
    }
    ListedArchive::Shown(archive)
}

/// When an archive was completed.
pub open spec fn archive_time() -> spec_fn(SessionArchive) -> u64 {
    |archive: SessionArchive| archive.archived_at_ms
}

/// Puts archives into listing order; archives of one time stay in their order.
pub fn sort_archives(archives: Vec<SessionArchive>) -> (sorted: Vec<SessionArchive>)
    ensures
        newest_first(sorted@, archive_time()),
        same_by_time(sorted@, archives@, archive_time()),
{
    let mut rest = archives;
    let ghost all = archives@;
    let mut sorted: Vec<SessionArchive> = Vec::new();
    let mut remaining: usize = rest.len();
    assert(all.take(remaining as int) =~= all);
    assert(all.skip(remaining as int) =~= Seq::empty());
    assert(sorted@ =~= Seq::empty());
    while remaining > 0
        invariant
            remaining == rest@.len(),
            remaining <= all.len(),
            rest@ == all.take(remaining as int),
            newest_first(sorted@, archive_time()),
            same_by_time(sorted@, all.skip(remaining as int), archive_time()),
        decreases remaining,
    {
        let ghost later_ones = all.skip(remaining as int);
        let next = rest.pop();
        remaining -= 1;
        match next {
            Some(archive) => {
                let mut at: usize = 0;
                let ghost before = sorted@;
                while at < sorted.len() && sorted[at].archived_at_ms > archive.archived_at_ms
                    invariant
                        at <= sorted@.len(),
                        sorted@ == before,
                        forall|i: int|
                            0 <= i < at ==> (#[trigger] sorted@[i]).archived_at_ms
                                > archive.archived_at_ms,
                    decreases sorted@.len() - at,
                {
                    at += 1;
                }
                sorted.insert(at, archive);
                proof {
                    assert(rest@ =~= all.take(remaining as int));
                    assert(archive == all[remaining as int]);
                    assert(sorted@ =~= before.insert(at as int, archive));
                    insertion_keeps_the_newest_first(
                        before,
                        at as int,
                        archive,
                        later_ones,
                        archive_time(),
                    );
                    assert(all.skip(remaining as int) =~= seq![archive] + later_ones);
                }
            },
            None => {
                assert(false);
            },
        }
    }
    assert(all.skip(0) =~= all);
    sorted
}

/// A terminal whose end was not recorded is known to be missing once the
/// daemon that ran it is gone.
pub open spec fn confirmed_terminal(info: ArchivedTerminalInfo, now: u64) -> ArchivedTerminalInfo {
    if info.ended_at_ms == 0 {
        ArchivedTerminalInfo { ended_at_ms: now, reason: TerminalEndReason::Missing, ..info }
    } else {
        info
    }
}

/// Completes an archive that an earlier daemon was still recording. No
/// terminal survives its daemon.
pub fn confirm_at(archive: SessionArchive, now: u64, retention_ms: u64) -> (confirmed:
    SessionArchive)
    ensures
        confirmed.session == archive.session,
        confirmed.view == archive.view,
        if archive.archived_at_ms == 0 {
            &&& confirmed.archived_at_ms == now
            &&& confirmed.expires_at_ms == later(now, retention_ms)
            &&& confirmed.terminals@ == archive.terminals@.map_values(
                |info: ArchivedTerminalInfo| confirmed_terminal(info, now),
            )
        } else {
            &&& confirmed.archived_at_ms == archive.archived_at_ms
            &&& confirmed.expires_at_ms == archive.expires_at_ms
            &&& confirmed.terminals@ == archive.terminals@
        },
{
    if archive.archived_at_ms != 0 {
        return archive;
    }
    let mut terminals: Vec<ArchivedTerminalInfo> = Vec::new();
    let mut index: usize = 0;
    while index < archive.terminals.len()
        invariant
            index <= archive.terminals@.len(),
            terminals@.len() == index,
            forall|i: int|
                0 <= i < index ==> (#[trigger] terminals@[i]) == confirmed_terminal(
                    archive.terminals@[i],
                    now,
                ),
        decreases archive.terminals@.len() - index,
    {
        let mut info = archive.terminals[index].clone();
        if info.ended_at_ms == 0 {
            info.ended_at_ms = now;
            info.reason = TerminalEndReason::Missing;
        }
        terminals.push(info);
        index += 1;
    }
    assert(terminals@ =~= archive.terminals@.map_values(
        |info: ArchivedTerminalInfo| confirmed_terminal(info, now),
    ));
    SessionArchive {
        session: archive.session,
        view: archive.view,
        terminals,
        archived_at_ms: now,
        expires_at_ms: now.saturating_add(retention_ms),
    }
}

/// Where a terminal stands in an archive.
pub open spec fn archived_terminal(
    list: Seq<ArchivedTerminalInfo>,
    id: Seq<char>,
    result: Result<ArchivedTerminalInfo, ArchiveError>,
) -> bool {
    match result {
        Ok(info) => exists|i: int|
            {
                &&& 0 <= i < list.len()
                &&& #[trigger] list[i] == info
                &&& info.terminal_id@ == id
                &&& forall|j: int| 0 <= j < i ==> (#[trigger] list[j]).terminal_id@ != id
            },
        Err(error) => error == ArchiveError::TerminalNotFound && forall|i: int|
            0 <= i < list.len() ==> (#[trigger] list[i]).terminal_id@ != id,
    }
}

/// Finds a terminal in an archive.
pub fn find_terminal(archive: &SessionArchive, terminal_id: &str) -> (result: Result<
    ArchivedTerminalInfo,
    ArchiveError,
>)
    ensures
        archived_terminal(archive.terminals@, terminal_id@, result),
{
    let mut index: usize = 0;
    while index < archive.terminals.len()
        invariant
            index <= archive.terminals@.len(),
            forall|i: int|
                0 <= i < index ==> (#[trigger] archive.terminals@[i]).terminal_id@ != terminal_id@,
        decreases archive.terminals@.len() - index,
    {
        if same_text(archive.terminals[index].terminal_id.as_str(), terminal_id) {
            let info = archive.terminals[index].clone();
            assert(archive.terminals@[index as int] == info);
            return Ok(info);
        }
        index += 1;
    }
    Err(ArchiveError::TerminalNotFound)
}

impl ArchiveStore {
    pub closed spec fn place(&self) -> Seq<char> {
        self.directory@
    }

    pub closed spec fn retention(&self) -> u64 {
        self.retention_ms
    }

    pub fn new(directory: String, retention_days: u64) -> (store: Self)
        ensures
            store.place() == directory@,
            store.retention() == if retention_days * DAY_MS <= u64::MAX {
                retention_days * DAY_MS
            } else {
                u64::MAX as int
            },
    {
        let retention_ms: u64 = if retention_days > u64::MAX / DAY_MS {
            u64::MAX
        } else {
            retention_days * DAY_MS
        };
        ArchiveStore { directory, retention_ms }
    }

    pub fn directory(&self) -> (directory: &str)
        ensures
            directory@ == self.place(),
    {
        self.directory.as_str()
    }

    /// Whether a directory entry is that of an archive.
    pub fn holds_archive(&self, entry_name: &str) -> (holds: bool)
        ensures
            holds == identifier(entry_name@),
    {
        is_identifier(entry_name)
    }

    /// The directory of an archive; only identifiers have one.
    pub fn path(&self, id: &str) -> (result: Result<String, ArchiveError>)
        ensures
            match result {
                Ok(path) => identifier(id@) && path@ == inside(self.place(), id@),
                Err(error) => !identifier(id@) && error == ArchiveError::InvalidArchiveId,
            },
    {
        self.checked_path(id, is_identifier(id))
    }

    /// The directory of an archive, given whether its name is an identifier.
    pub fn checked_path(&self, id: &str, valid: bool) -> (result: Result<String, ArchiveError>)
        ensures
            match result {
                Ok(path) => valid && path@ == inside(self.place(), id@),
                Err(error) => !valid && error == ArchiveError::InvalidArchiveId,
            },
    {
        if valid {
            Ok(join_path(self.directory.as_str(), id))
        } else {
            Err(ArchiveError::InvalidArchiveId)
        }
    }

    /// The archive to write now; a session or a terminal without an identifier is
    /// refused.
    pub fn save(
        &self,
        archive: SessionArchive,
        previous: Option<SessionArchive>,
        ended: &Vec<ArchivedTerminalInfo>,
        complete: bool,
    ) -> (result: Result<SessionArchive, ArchiveError>)
        ensures
            result is Ok <==> identifier(archive.session.session_id@) && identified(ended@),
            match result {
                Err(error) => error == if identifier(archive.session.session_id@) {
                    ArchiveError::InvalidTerminalId
                } else {
                    ArchiveError::InvalidArchiveId
                },
                Ok(saved) => {
                    &&& saved.session == (SessionInfo {
                        status: SessionStatus::Exited,
                        ..archive.session
                    })
                    &&& !complete ==> saved.archived_at_ms == 0
                    &&& saved.expires_at_ms >= self.retention()
                    &&& complete ==> saved.expires_at_ms == later(
                        saved.archived_at_ms,
                        self.retention(),
                    )
                    &&& match previous {
                        Some(previous) => {
                            &&& saved.view == if merely_shrank(archive.view, previous.view) {
                                previous.view
                            } else {
                                archive.view
                            }
                            &&& saved.terminals@ == recorded(previous.terminals@, ended@)
                        },
                        None => {
                            &&& saved.view == archive.view
                            &&& saved.terminals@ == recorded(archive.terminals@, ended@)
                        },
                    }
                },
            },
    {
        if !is_identifier(archive.session.session_id.as_str()) {
            return Err(ArchiveError::InvalidArchiveId);
        }
        let mut index: usize = 0;
        while index < ended.len()
            invariant
                index <= ended@.len(),
                identifier(archive.session.session_id@),
                forall|i: int|
                    0 <= i < index ==> identifier((#[trigger] ended@[i]).terminal_id@),
            decreases ended@.len() - index,
        {
            if !is_identifier(ended[index].terminal_id.as_str()) {
                assert(!identifier(ended@[index as int].terminal_id@));
                return Err(ArchiveError::InvalidTerminalId);
            }
            index += 1;
        }
        Ok(archive_at(archive, previous, ended, complete, now_ms(), self.retention_ms))
    }

    /// Completes an archive that an earlier daemon was still recording: see
    /// [`confirm_at`].
    pub fn confirm(&self, archive: SessionArchive) -> (confirmed: SessionArchive)
        ensures
            confirmed.session == archive.session,
            confirmed.view == archive.view,
            if archive.archived_at_ms == 0 {
                &&& confirmed.expires_at_ms == later(confirmed.archived_at_ms, self.retention())
                &&& confirmed.terminals@ == archive.terminals@.map_values(
                    |info: ArchivedTerminalInfo|
                        confirmed_terminal(info, confirmed.archived_at_ms),
                )
            } else {
                &&& confirmed.archived_at_ms == archive.archived_at_ms
                &&& confirmed.expires_at_ms == archive.expires_at_ms
                &&& confirmed.terminals@ == archive.terminals@
            },
    {
        confirm_at(archive, now_ms(), self.retention_ms)
    }

    /// The archive that was read, if it can be looked at now: see
    /// [`available_at`].
    pub fn get(&self, archive: SessionArchive) -> (result: Result<SessionArchive, ArchiveError>)
        ensures
            archive.archived_at_ms == 0 ==> result is Err,
            archive.expires_at_ms == 0 ==> result is Err,
            match result {
                Ok(shown) => shown == archive,
                Err(error) => error == ArchiveError::Unavailable,
            },
    {
        available_at(archive, now_ms())
    }

    /// A terminal of an archive that was read: see [`find_terminal`].
    pub fn terminal(&self, archive: &SessionArchive, terminal_id: &str) -> (result: Result<
        ArchivedTerminalInfo,
        ArchiveError,
    >)
        ensures
            if identifier(terminal_id@) {
                archived_terminal(archive.terminals@, terminal_id@, result)
            } else {
                result == Err::<ArchivedTerminalInfo, _>(ArchiveError::InvalidTerminalId)
            },
    {
        if !is_identifier(terminal_id) {
            return Err(ArchiveError::InvalidTerminalId);
        }
        find_terminal(archive, terminal_id)
    }
}

/// The file in which a terminal of an archive is kept.
pub fn terminal_file_name(terminal_id: &str) -> (name: String)
    ensures
        name@ == terminal_id@ + ".json"@,
{
    prefixed(terminal_id, ".json")
}

/// Recording terminals keeps every terminal that was recorded before, and the
/// newest record of each that ended.
pub proof fn recording_keeps_every_terminal(
    list: Seq<ArchivedTerminalInfo>,
    ended: Seq<ArchivedTerminalInfo>,
)
    ensures
        forall|i: int|
            0 <= i < list.len() ==> is_recorded(
                recorded(list, ended),
                (#[trigger] list[i]).terminal_id@,
            ),
        forall|i: int|
            0 <= i < ended.len() ==> is_recorded(
                recorded(list, ended),
                (#[trigger] ended[i]).terminal_id@,
            ),
        ended.len() > 0 ==> recorded(list, ended).last() == ended.last(),
    decreases ended.len(),
{
    if ended.len() > 0 {
        let earlier = ended.drop_last();
        let before = recorded(list, earlier);
        let last = ended.last();
        recording_keeps_every_terminal(list, earlier);
        assert forall|id: Seq<char>| is_recorded(before, id) implies #[trigger] is_recorded(
            recorded(list, ended),
            id,
        ) by {
            replacing_keeps(before, last, id);
        }
        assert forall|i: int| 0 <= i < ended.len() implies is_recorded(
            recorded(list, ended),
            (#[trigger] ended[i]).terminal_id@,
        ) by {
            if i < earlier.len() {
                assert(earlier[i] == ended[i]);
            } else {
                let after = recorded(list, ended);
                assert(after[after.len() - 1] == last);
            }
        }
    } else {
        assert forall|i: int| 0 <= i < list.len() implies is_recorded(
            recorded(list, ended),
            (#[trigger] list[i]).terminal_id@,
        ) by {}
    }
}

/// Whether a terminal is recorded.
pub open spec fn is_recorded(list: Seq<ArchivedTerminalInfo>, id: Seq<char>) -> bool {
    exists|i: int| 0 <= i < list.len() && (#[trigger] list[i]).terminal_id@ == id
}

proof fn replacing_keeps(
    list: Seq<ArchivedTerminalInfo>,
    info: ArchivedTerminalInfo,
    id: Seq<char>,
)
    requires
        is_recorded(list, id),
    ensures
        is_recorded(without_terminal(list, info.terminal_id@).push(info), id),
{
    let after = without_terminal(list, info.terminal_id@).push(info);
    if id == info.terminal_id@ {
        assert(after[after.len() - 1] == info);
    } else {
        others_stay(list, info.terminal_id@, id);
        let rest = without_terminal(list, info.terminal_id@);
        let i = choose|i: int| 0 <= i < rest.len() && (#[trigger] rest[i]).terminal_id@ == id;
        assert(after[i] == rest[i]);
    }
}

proof fn others_stay(list: Seq<ArchivedTerminalInfo>, removed: Seq<char>, id: Seq<char>)
    requires
        is_recorded(list, id),
        id != removed,
    ensures
        is_recorded(without_terminal(list, removed), id),
    decreases list.len(),
{
    let i = choose|i: int| 0 <= i < list.len() && (#[trigger] list[i]).terminal_id@ == id;
    let head = list.drop_last();
    let rest = without_terminal(head, removed);
    let after = without_terminal(list, removed);
    if i == list.len() - 1 {
        assert(after[after.len() - 1] == list.last());
    } else {
        assert(head[i] == list[i]);
        others_stay(head, removed, id);
        let j = choose|j: int| 0 <= j < rest.len() && (#[trigger] rest[j]).terminal_id@ == id;
        assert(after[j] == rest[j]);
    }
}

/// Taking a terminal out of a list leaves every other one, in order, and none
/// of that identifier.
pub proof fn only_that_terminal_is_taken_out(list: Seq<ArchivedTerminalInfo>, id: Seq<char>)
    ensures
        !is_recorded(without_terminal(list, id), id),
        without_terminal(list, id).len() <= list.len(),
        !is_recorded(list, id) ==> without_terminal(list, id) == list,
        forall|i: int|
            0 <= i < list.len() && (#[trigger] list[i]).terminal_id@ != id ==> without_terminal(
                list,
                id,
            ).contains(list[i]),
    decreases list.len(),
{
    if list.len() > 0 {
        let head = list.drop_last();
        let last = list.last();
        let rest = without_terminal(head, id);
        let after = without_terminal(list, id);
        only_that_terminal_is_taken_out(head, id);
        if is_recorded(after, id) {
            let i = choose|i: int| 0 <= i < after.len() && (#[trigger] after[i]).terminal_id@ == id;
            if i < rest.len() {
                assert(rest[i].terminal_id@ == id);
            }
        }
        if !is_recorded(list, id) {
            if is_recorded(head, id) {
                let i = choose|i: int|
                    0 <= i < head.len() && (#[trigger] head[i]).terminal_id@ == id;
                assert(list[i].terminal_id@ == id);
            }
            assert(list[list.len() - 1].terminal_id@ != id);
            assert(head.push(last) =~= list);
        }
        assert forall|i: int|
            0 <= i < list.len() && (#[trigger] list[i]).terminal_id@ != id implies after.contains(
            list[i],
        ) by {
            if i < head.len() {
                assert(head[i] == list[i]);
                let j = choose|j: int| 0 <= j < rest.len() && rest[j] == head[i];
                assert(after[j] == list[i]);
            } else {
                assert(after[rest.len() as int] == last);
            }
        }
    }
}

/// A time after another is never before it, and exact as far as it can be held.
pub proof fn time_does_not_run_back(time: u64, by: u64)
    ensures
        later(time, by) >= time,
        later(time, by) >= by,
        time + by <= u64::MAX ==> later(time, by) == time + by,
        time + by > u64::MAX ==> later(time, by) == u64::MAX,
{
}

/// Once its daemon is gone, every terminal of an archive has ended: one whose
/// end was recorded as it was, any other is missing since then.
pub proof fn a_recorded_end_is_not_changed(info: ArchivedTerminalInfo, now: u64)
    requires
        now > 0,
    ensures
        confirmed_terminal(info, now).ended_at_ms > 0,
        confirmed_terminal(info, now).terminal_id == info.terminal_id,
        confirmed_terminal(confirmed_terminal(info, now), now) == confirmed_terminal(info, now),
        info.ended_at_ms > 0 ==> confirmed_terminal(info, now) == info,
        info.ended_at_ms == 0 ==> confirmed_terminal(info, now).reason == TerminalEndReason::Missing
            && confirmed_terminal(info, now).ended_at_ms == now,
{
}

/// A view that merely lost terminals shows only terminals that were there, and
/// fewer of them; it is not turned round.
pub proof fn a_shrunken_view_gained_nothing(view: ViewInfo, previous: ViewInfo, id: Seq<char>)
    requires
        merely_shrank(view, previous),
    ensures
        in_view(view, id) ==> in_view(previous, id),
        view.terminals@.len() < previous.terminals@.len(),
        !merely_shrank(previous, view),
        !merely_shrank(view, view),
{
}

/// An archive can be looked at from its completion until it expires.
pub proof fn an_archive_is_available_for_its_time(archive: SessionArchive, now: u64)
    requires
        archive.archived_at_ms > 0,
    ensures
        now < archive.expires_at_ms ==> available(archive, now),
        archive.expires_at_ms <= now ==> !available(archive, now),
        forall|before: u64|
            before <= now && available(archive, now) ==> #[trigger] available(archive, before),
{
}

/// The record of a terminal is its latest one: what was recorded last under an
/// identifier is there, and what was not recorded anew is there as it was.
pub proof fn the_latest_record_counts(
    list: Seq<ArchivedTerminalInfo>,
    ended: Seq<ArchivedTerminalInfo>,
)
    ensures
        forall|i: int| #![trigger ended[i]]
            0 <= i < ended.len() && (forall|j: int|
                i < j < ended.len() ==> (#[trigger] ended[j]).terminal_id@
                    != ended[i].terminal_id@) ==> recorded(list, ended).contains(ended[i]),
        forall|i: int| #![trigger list[i]]
            0 <= i < list.len() && !is_recorded(ended, list[i].terminal_id@) ==> recorded(
                list,
                ended,
            ).contains(list[i]),
    decreases ended.len(),
{
    if ended.len() > 0 {
        let head = ended.drop_last();
        let last = ended.last();
        let before = recorded(list, head);
        let kept = without_terminal(before, last.terminal_id@);
        let after = recorded(list, ended);
        the_latest_record_counts(list, head);
        only_that_terminal_is_taken_out(before, last.terminal_id@);
        assert forall|info: ArchivedTerminalInfo|
            #[trigger] before.contains(info) && info.terminal_id@ != last.terminal_id@ implies
            after.contains(info) by {
            let k = choose|k: int| 0 <= k < before.len() && before[k] == info;
            assert(before[k].terminal_id@ != last.terminal_id@);
            let m = choose|m: int| 0 <= m < kept.len() && kept[m] == before[k];
            assert(after[m] == info);
        }
        assert forall|i: int| #![trigger ended[i]]
            0 <= i < ended.len() && (forall|j: int|
                i < j < ended.len() ==> (#[trigger] ended[j]).terminal_id@
                    != ended[i].terminal_id@) implies after.contains(ended[i]) by {
            if i < head.len() {
                assert(head[i] == ended[i]);
                assert(ended[ended.len() - 1].terminal_id@ != ended[i].terminal_id@);
                assert forall|j: int| i < j < head.len() implies (
                #[trigger] head[j]).terminal_id@ != head[i].terminal_id@ by {
                    assert(ended[j] == head[j]);
                }
                assert(before.contains(head[i]));
            } else {
                assert(after[kept.len() as int] == last);
            }
        }
        assert forall|i: int| #![trigger list[i]]
            0 <= i < list.len() && !is_recorded(ended, list[i].terminal_id@) implies
            after.contains(list[i]) by {
            if is_recorded(head, list[i].terminal_id@) {
                let k = choose|k: int|
                    0 <= k < head.len() && (#[trigger] head[k]).terminal_id@
                        == list[i].terminal_id@;
                assert(ended[k] == head[k]);
            }
            assert(ended[ended.len() - 1].terminal_id@ != list[i].terminal_id@);
            assert(before.contains(list[i]));
        }
    } else {
        assert forall|i: int| #![trigger list[i]]
            0 <= i < list.len() && !is_recorded(ended, list[i].terminal_id@) implies recorded(
            list,
            ended,
        ).contains(list[i]) by {
            assert(recorded(list, ended)[i] == list[i]);
        }
    }
}

} // verus!
