//! Client-owned, read-only records of sessions. No daemon is involved.
use vstd::prelude::*;
use vstd::string::*;

use crate::ids::lower_hex;
use crate::ipc::{inside, join_path};
use crate::order::{insertion_keeps_the_newest_first, newest_first, same_by_time};
use crate::text::{between, prefixed, same_text, texts};

verus! {

/// How long a record is kept: seven days, in milliseconds.
pub const RETENTION_MS: u64 = 604_800_000;

/// What was seen of one terminal.
#[derive(Debug, PartialEq, Eq)]
pub struct ArchivedPane {
    pub terminal_id: String,
    pub reason: String,
    pub lines: Vec<String>,
}

impl Clone for ArchivedPane {
    fn clone(&self) -> (copy: Self)
        ensures
            copy@ == self@,
    {
        let copy = ArchivedPane {
            terminal_id: self.terminal_id.clone(),
            reason: self.reason.clone(),
            lines: self.lines.clone(),
        };
        assert(texts(copy.lines@) =~= texts(self.lines@));
        copy
    }
}

/// The mathematical content of an [`ArchivedPane`].
#[verifier::ext_equal]
pub struct SeenPane {
    pub id: Seq<char>,
    pub reason: Seq<char>,
    pub lines: Seq<Seq<char>>,
}

impl View for ArchivedPane {
    type V = SeenPane;

    open spec fn view(&self) -> SeenPane {
        SeenPane { id: self.terminal_id@, reason: self.reason@, lines: texts(self.lines@) }
    }
}

pub open spec fn seen(panes: Seq<ArchivedPane>) -> Seq<SeenPane> {
    panes.map_values(|pane: ArchivedPane| pane@)
}

/// What was seen of one session.
#[derive(Debug, PartialEq, Eq)]
pub struct SessionArchive {
    pub session_id: String,
    pub name: String,
    pub host_key: String,
    pub archived_at_ms: u64,
    pub expires_at_ms: u64,
    pub terminals: Vec<ArchivedPane>,
}

impl SessionArchive {
    /// Whether two records agree on the session they are about.
    pub open spec fn same_subject(self, other: SessionArchive) -> bool {
        &&& self.session_id == other.session_id
        &&& self.name == other.name
        &&& self.host_key == other.host_key
    }
}

/// The time of day as milliseconds since the epoch, or nothing before it.
///
/// Calls `std::time::SystemTime::now` and `duration_since`. What the clock
/// shows is up to the machine.
#[verifier::external_body]
fn clock_millis() -> (millis: Option<u128>) {
    std::time::SystemTime::now().duration_since(std::time::UNIX_EPOCH).ok().map(|d| d.as_millis())
}

/// A number of milliseconds as far as it can be held; a clock before the epoch
/// counts as standing at it.
pub fn bounded_millis(millis: Option<u128>) -> (bounded: u64)
    ensures
        bounded == match millis {
            Some(millis) => if millis <= u64::MAX {
                millis as int
            } else {
                u64::MAX as int
            },
            None => 0,
        },
{
    match millis {
        Some(millis) => if millis <= u64::MAX as u128 {
            millis as u64
        } else {
            u64::MAX
        },
        None => 0,
    }
}

/// The time of day in milliseconds since the epoch.
pub fn now_ms() -> (now: u64) {
    bounded_millis(clock_millis())
}

/// The digest of some bytes, in hexadecimal digits.
pub uninterp spec fn digest(bytes: Seq<u8>) -> Seq<char>;

/// The digest of some bytes: 64 lower-case hexadecimal digits.
///
/// Calls `sha2::Sha256::digest` and writes its 32 bytes in lower-case
/// hexadecimal.
#[verifier::external_body]
fn sha256_hex(bytes: &[u8]) -> (hex: String)
    ensures
        hex@ == digest(bytes@),
        hex@.len() == 64,
        forall|i: int| 0 <= i < 64 ==> lower_hex(#[trigger] hex@[i]),
{
    format!("{:x}", <sha2::Sha256 as sha2::Digest>::digest(bytes))
}

/// What the file name of a record is made of: the host and the session, with a
/// character between them that neither can hold in a file name.
pub open spec fn record_subject(host_key: Seq<char>, session_id: Seq<char>) -> Seq<char> {
    host_key + "\0"@ + session_id
}

/// Where records are kept.
#[derive(Debug, PartialEq, Eq)]
pub struct ArchiveStore {
    directory: String,
}

impl ArchiveStore {
    pub closed spec fn place(&self) -> Seq<char> {
        self.directory@
    }

    /// The store of one client in the user's local data directory.
    pub fn for_client(data_directory: Option<String>, client: &str) -> (result: Result<
        Self,
        &'static str,
    >)
        ensures
            match (data_directory, result) {
                (Some(base), Ok(store)) => store.place() == inside(
                    inside(inside(base@, "rmux"@), client@),
                    "archives"@,
                ),
                (None, Err(problem)) => problem@ == "Local data directory unavailable"@,
                _ => false,
            },
    {
        match data_directory {
            Some(base) => {
                let own = join_path(base.as_str(), "rmux");
                let of_client = join_path(own.as_str(), client);
                Ok(ArchiveStore::new(join_path(of_client.as_str(), "archives")))
            },
            None => Err("Local data directory unavailable"),
        }
    }

    pub fn new(directory: String) -> (store: Self)
        ensures
            store.place() == directory@,
    {
        ArchiveStore { directory }
    }

    pub fn directory(&self) -> (directory: &str)
        ensures
            directory@ == self.place(),
    {
        self.directory.as_str()
    }

    /// The file of a record: one for each session of each host.
    pub fn record_path(&self, host_key: &str, session_id: &str) -> (path: String)
        ensures
            path@ == inside(
                self.place(),
                digest(vstd::utf8::encode_utf8(record_subject(host_key@, session_id@)))
                    + ".json"@,
            ),
    {
        let subject = between(host_key, "\0", session_id);
        let key = sha256_hex(subject.as_str().as_bytes());
        self.keyed_path(key.as_str())
    }

    /// The file with a given key.
    pub fn keyed_path(&self, key: &str) -> (path: String)
        ensures
            path@ == inside(self.place(), key@ + ".json"@),
    {
        join_path(self.directory.as_str(), prefixed(key, ".json").as_str())
    }
}

/// Where a terminal first stands among panes.
pub open spec fn pane_position(panes: Seq<SeenPane>, id: Seq<char>) -> Option<int>
    decreases panes.len(),
{
    if panes.len() == 0 {
        None
    } else {
        match pane_position(panes.drop_last(), id) {
            Some(position) => Some(position),
            None => if panes.last().id == id {
                Some(panes.len() - 1)
            } else {
                None
            },
        }
    }
}

/// Panes after an older one was taken into account: it fills in for a pane
/// that shows nothing, and stands by itself when there is no such pane.
pub open spec fn absorbed(panes: Seq<SeenPane>, older: SeenPane) -> Seq<SeenPane> {
    match pane_position(panes, older.id) {
        Some(i) => if panes[i].lines.len() == 0 {
            panes.update(i, SeenPane { lines: older.lines, ..panes[i] })
        } else {
            panes
        },
        None => panes.push(older),
    }
}

/// Panes after older ones were taken into account, one after the other.
pub open spec fn merged(panes: Seq<SeenPane>, older: Seq<SeenPane>) -> Seq<SeenPane>
    decreases older.len(),
{
    if older.len() == 0 {
        panes
    } else {
        absorbed(merged(panes, older.drop_last()), older.last())
    }
}

/// A position is within the panes and shows the terminal, or no pane does.
pub proof fn pane_position_facts(panes: Seq<SeenPane>, id: Seq<char>)
    ensures
        match pane_position(panes, id) {
            Some(i) => 0 <= i < panes.len() && panes[i].id == id,
            None => forall|i: int| 0 <= i < panes.len() ==> (#[trigger] panes[i]).id != id,
        },
    decreases panes.len(),
{
    if panes.len() > 0 {
        pane_position_facts(panes.drop_last(), id);
        if pane_position(panes, id) is None {
            assert forall|i: int| 0 <= i < panes.len() implies (#[trigger] panes[i]).id != id by {
                if i < panes.len() - 1 {
                    assert(panes.drop_last()[i] == panes[i]);
                }
            }
        }
    }
}

/// Whether a terminal is among panes.
pub open spec fn shows_terminal(panes: Seq<SeenPane>, id: Seq<char>) -> bool {
    pane_position(panes, id) is Some
}

fn find_pane(panes: &Vec<ArchivedPane>, id: &str) -> (found: Option<usize>)
    ensures
        match found {
            Some(i) => i < panes@.len() && pane_position(seen(panes@), id@) == Some(i as int),
            None => pane_position(seen(panes@), id@) is None,
        },
{
    let ghost all = seen(panes@);
    let mut index: usize = 0;
    while index < panes.len()
        invariant
            index <= panes@.len(),
            all == seen(panes@),
            pane_position(all.take(index as int), id@) is None,
        decreases panes@.len() - index,
    {
        proof {
            let taken = all.take(index + 1);
            assert(taken.drop_last() =~= all.take(index as int));
            assert(taken.last() == panes@[index as int]@);
        }
        if same_text(panes[index].terminal_id.as_str(), id) {
            proof {
                position_is_first(all, index + 1, id@);
            }
            return Some(index);
        }
        index += 1;
    }
    assert(all.take(index as int) =~= all);
    None
}

proof fn position_is_first(panes: Seq<SeenPane>, count: int, id: Seq<char>)
    requires
        0 <= count <= panes.len(),
        pane_position(panes.take(count), id) is Some,
    ensures
        pane_position(panes, id) == pane_position(panes.take(count), id),
    decreases panes.len(),
{
    if count == panes.len() {
        assert(panes.take(count) =~= panes);
    } else {
        assert(panes.drop_last().take(count) =~= panes.take(count));
        position_is_first(panes.drop_last(), count, id);
    }
}

/// Takes older panes into account.
fn merge_panes(panes: Vec<ArchivedPane>, older: Vec<ArchivedPane>) -> (result: Vec<ArchivedPane>)
    ensures
        seen(result@) == merged(seen(panes@), seen(older@)),
{
    let mut result = panes;
    let ghost start = seen(result@);
    let ghost all = seen(older@);
    let mut index: usize = 0;
    assert(all.take(0) =~= Seq::empty());
    while index < older.len()
        invariant
            index <= older@.len(),
            all == seen(older@),
            seen(result@) == merged(start, all.take(index as int)),
        decreases older@.len() - index,
    {
        let ghost before = seen(result@);
        proof {
            let taken = all.take(index + 1);
            assert(taken.drop_last() =~= all.take(index as int));
            assert(taken.last() == older@[index as int]@);
        }
        match find_pane(&result, older[index].terminal_id.as_str()) {
            Some(position) => {
                assert(before[position as int] == result@[position as int]@);
                if result[position].lines.len() == 0 {
                    let filled = ArchivedPane {
                        terminal_id: result[position].terminal_id.clone(),
                        reason: result[position].reason.clone(),
                        lines: older[index].clone().lines,
                    };
                    result.set(position, filled);
                    assert(seen(result@) =~= before.update(position as int, filled@));
                }
            },
            None => {
                let pane = older[index].clone();
                result.push(pane);
                assert(seen(result@) =~= before.push(pane@));
            },
        }
        index += 1;
    }
    assert(all.take(index as int) =~= all);
    result
}

/// Whether a record is not kept any more.
pub open spec fn expired(archive: SessionArchive, now: u64) -> bool {
    archive.expires_at_ms <= now
}

pub fn is_expired(archive: &SessionArchive, now: u64) -> (gone: bool)
    ensures
        gone == expired(*archive, now),
{
    archive.expires_at_ms <= now
}

/// The record to write at a given time: it is kept for seven days, and what an
/// earlier record that is still kept showed is not lost.
pub fn record_at(archive: SessionArchive, previous: Option<SessionArchive>, now: u64) -> (record:
    SessionArchive)
    ensures
        record.same_subject(archive),
        record.archived_at_ms == now,
        record.expires_at_ms == if now + RETENTION_MS <= u64::MAX {
            now + RETENTION_MS
        } else {
            u64::MAX as int
        },
        seen(record.terminals@) == match previous {
            Some(previous) => if expired(previous, now) {
                seen(archive.terminals@)
            } else {
                merged(seen(archive.terminals@), seen(previous.terminals@))
            },
            None => seen(archive.terminals@),
        },
{
    let terminals = match previous {
        Some(previous) => if is_expired(&previous, now) {
            archive.terminals
        } else {
            merge_panes(archive.terminals, previous.terminals)
        },
        None => archive.terminals,
    };
    SessionArchive {
        session_id: archive.session_id,
        name: archive.name,
        host_key: archive.host_key,
        archived_at_ms: now,
        expires_at_ms: now.saturating_add(RETENTION_MS),
        terminals,
    }
}

/// The record to write now: see [`record_at`].
pub fn record_now(archive: SessionArchive, previous: Option<SessionArchive>) -> (record:
    SessionArchive)
    ensures
        record.same_subject(archive),
        record.expires_at_ms == if record.archived_at_ms + RETENTION_MS <= u64::MAX {
            record.archived_at_ms + RETENTION_MS
        } else {
            u64::MAX as int
        },
        seen(record.terminals@) == match previous {
            Some(previous) => if expired(previous, record.archived_at_ms) {
                seen(archive.terminals@)
            } else {
                merged(seen(archive.terminals@), seen(previous.terminals@))
            },
            None => seen(archive.terminals@),
        },
{
    record_at(archive, previous, now_ms())
}

/// When a record was made.
pub open spec fn record_time() -> spec_fn(SessionArchive) -> u64 {
    |record: SessionArchive| record.archived_at_ms
}

/// The records that are still kept, the newest first; records of one time stay
/// in their order. The keys of the others are handed out, to be removed.
pub fn list_at(records: Vec<(String, SessionArchive)>, now: u64) -> (listing: (
    Vec<SessionArchive>,
    Vec<String>,
))
    ensures
        newest_first(listing.0@, record_time()),
        same_by_time(listing.0@, kept(records@, now), record_time()),
        forall|i: int| 0 <= i < listing.0@.len() ==> !expired(#[trigger] listing.0@[i], now),
        texts(listing.1@) == dropped(records@, now),
{
    let mut list: Vec<SessionArchive> = Vec::new();
    let mut removed: Vec<String> = Vec::new();
    let mut rest = records;
    let ghost all = records@;
    let mut remaining: usize = rest.len();
    assert(all.take(remaining as int) =~= all);
    assert(kept(all.skip(remaining as int), now) =~= Seq::empty());
    assert(all.skip(remaining as int) =~= Seq::empty());
    assert(list@ =~= Seq::empty());
    assert(texts(removed@) =~= Seq::empty());
    while remaining > 0
        invariant
            remaining == rest@.len(),
            remaining <= all.len(),
            rest@ == all.take(remaining as int),
            newest_first(list@, record_time()),
            same_by_time(list@, kept(all.skip(remaining as int), now), record_time()),
            forall|i: int| 0 <= i < list@.len() ==> !expired(#[trigger] list@[i], now),
            texts(removed@) == dropped(all.skip(remaining as int), now),
        decreases remaining,
    {
        let ghost later = all.skip(remaining as int);
        let ghost from_here = all.skip(remaining - 1);
        let entry = rest.pop();
        remaining -= 1;
        match entry {
            Some((key, archive)) => {
                proof {
                    assert(from_here.skip(1) =~= later);
                    assert(from_here[0] == all[remaining as int]);
                    assert((key, archive) == all[remaining as int]);
                    assert(rest@ =~= all.take(remaining as int));
                    kept_first(from_here, now);
                }
                if is_expired(&archive, now) {
                    let ghost before = texts(removed@);
                    removed.insert(0, key);
                    assert(texts(removed@) =~= seq![key@] + before);
                } else {
                    insert_newest_first(&mut list, archive, Ghost(kept(later, now)));
                }
            },
            None => {
                assert(false);
            },
        }
    }
    assert(all.skip(0) =~= all);
    (list, removed)
}

/// Puts a record before the first that is not newer.
fn insert_newest_first(
    list: &mut Vec<SessionArchive>,
    archive: SessionArchive,
    Ghost(others): Ghost<Seq<SessionArchive>>,
)
    requires
        newest_first(old(list)@, record_time()),
        same_by_time(old(list)@, others, record_time()),
    ensures
        newest_first(final(list)@, record_time()),
        same_by_time(final(list)@, seq![archive] + others, record_time()),
        exists|at: int|
            0 <= at <= old(list)@.len() && final(list)@ == #[trigger] old(list)@.insert(
                at,
                archive,
            ),
{
    let ghost before = list@;
    let mut at: usize = 0;
    while at < list.len() && list[at].archived_at_ms > archive.archived_at_ms
        invariant
            at <= list@.len(),
            list@ == before,
            forall|i: int|
                0 <= i < at ==> (#[trigger] list@[i]).archived_at_ms > archive.archived_at_ms,
        decreases list@.len() - at,
    {
        at += 1;
    }
    list.insert(at, archive);
    proof {
        assert(list@ =~= before.insert(at as int, archive));
        insertion_keeps_the_newest_first(before, at as int, archive, others, record_time());
    }
}

/// The records that are still kept, in order.
pub open spec fn kept(records: Seq<(String, SessionArchive)>, now: u64) -> Seq<SessionArchive>
    decreases records.len(),
{
    if records.len() == 0 {
        Seq::empty()
    } else if expired(records[0].1, now) {
        kept(records.skip(1), now)
    } else {
        seq![records[0].1] + kept(records.skip(1), now)
    }
}

/// The keys of the records that are not kept, in order.
pub open spec fn dropped(records: Seq<(String, SessionArchive)>, now: u64) -> Seq<Seq<char>>
    decreases records.len(),
{
    if records.len() == 0 {
        Seq::empty()
    } else if expired(records[0].1, now) {
        seq![records[0].0@] + dropped(records.skip(1), now)
    } else {
        dropped(records.skip(1), now)
    }
}

proof fn kept_first(records: Seq<(String, SessionArchive)>, now: u64)
    requires
        records.len() > 0,
    ensures
        kept(records, now) == if expired(records[0].1, now) {
            kept(records.skip(1), now)
        } else {
            seq![records[0].1] + kept(records.skip(1), now)
        },
        dropped(records, now) == if expired(records[0].1, now) {
            seq![records[0].0@] + dropped(records.skip(1), now)
        } else {
            dropped(records.skip(1), now)
        },
{
}

/// Taking an earlier record into account loses nothing: every terminal of
/// either record is there, and lines that were seen stay as they were.
pub proof fn merging_loses_nothing(panes: Seq<SeenPane>, older: Seq<SeenPane>)
    ensures
        merged(panes, older).len() >= panes.len(),
        forall|i: int|
            0 <= i < panes.len() ==> {
                &&& (#[trigger] merged(panes, older)[i]).id == panes[i].id
                &&& merged(panes, older)[i].reason == panes[i].reason
                &&& panes[i].lines.len() > 0 ==> merged(panes, older)[i].lines == panes[i].lines
            },
        forall|i: int|
            0 <= i < older.len() ==> shows_terminal(
                merged(panes, older),
                (#[trigger] older[i]).id,
            ),
    decreases older.len(),
{
    if older.len() > 0 {
        let earlier = older.drop_last();
        let before = merged(panes, earlier);
        let after = merged(panes, older);
        let last = older.last();
        merging_loses_nothing(panes, earlier);
        pane_position_facts(before, last.id);
        assert forall|i: int| 0 <= i < older.len() implies shows_terminal(
            after,
            (#[trigger] older[i]).id,
        ) by {
            if i < earlier.len() {
                assert(earlier[i] == older[i]);
                pane_position_facts(before, older[i].id);
                let at = pane_position(before, older[i].id)->0;
                assert(after[at].id == older[i].id);
                pane_position_facts(after, older[i].id);
            } else {
                pane_position_facts(after, last.id);
                match pane_position(before, last.id) {
                    Some(at) => {
                        assert(after[at].id == last.id);
                    },
                    None => {
                        assert(after[before.len() as int] == last);
                    },
                }
            }
        }
        assert forall|i: int| 0 <= i < panes.len() implies {
            &&& (#[trigger] merged(panes, older)[i]).id == panes[i].id
            &&& merged(panes, older)[i].reason == panes[i].reason
            &&& panes[i].lines.len() > 0 ==> merged(panes, older)[i].lines == panes[i].lines
        } by {
            assert(merged(panes, earlier)[i].id == panes[i].id);
        }
    }
}

/// Records of different hosts or sessions are about different subjects.
pub proof fn subjects_are_kept_apart(
    host: Seq<char>,
    session: Seq<char>,
    other_host: Seq<char>,
    other_session: Seq<char>,
)
    requires
        !host.contains('\0'),
        !other_host.contains('\0'),
        record_subject(host, session) == record_subject(other_host, other_session),
    ensures
        host == other_host,
        session == other_session,
{
    reveal_strlit("\0");
    let a = record_subject(host, session);
    let b = record_subject(other_host, other_session);
    assert(a[host.len() as int] == '\0');
    assert(b[other_host.len() as int] == '\0');
    if host.len() < other_host.len() {
        assert(b[host.len() as int] == other_host[host.len() as int]);
    }
    if other_host.len() < host.len() {
        assert(a[other_host.len() as int] == host[other_host.len() as int]);
    }
    assert(a.take(host.len() as int) =~= host);
    assert(b.take(other_host.len() as int) =~= other_host);
    assert(a.skip(host.len() as int + 1) =~= session);
    assert(b.skip(other_host.len() as int + 1) =~= other_session);
}

/// An older record fills in for a pane that shows nothing, and stands by itself
/// where there is no such pane; a pane that shows something keeps it. No pane
/// changes otherwise.
pub proof fn an_older_record_fills_in(panes: Seq<SeenPane>, older: SeenPane)
    ensures
        shows_terminal(absorbed(panes, older), older.id),
        absorbed(panes, older).len() == if shows_terminal(panes, older.id) {
            panes.len()
        } else {
            panes.len() + 1
        },
        !shows_terminal(panes, older.id) ==> absorbed(panes, older).last() == older,
        forall|i: int|
            0 <= i < panes.len() ==> {
                let fills = pane_position(panes, older.id) == Some(i) && panes[i].lines.len() == 0;
                &&& (#[trigger] absorbed(panes, older)[i]).id == panes[i].id
                &&& absorbed(panes, older)[i].reason == panes[i].reason
                &&& absorbed(panes, older)[i].lines == if fills {
                    older.lines
                } else {
                    panes[i].lines
                }
            },
{
    pane_position_facts(panes, older.id);
    let after = absorbed(panes, older);
    pane_position_facts(after, older.id);
    match pane_position(panes, older.id) {
        Some(i) => {
            assert(after[i].id == older.id);
        },
        None => {
            assert(after[panes.len() as int] == older);
        },
    }
}

/// Every record is either kept or dropped: dropped exactly when its time has
/// come. What is kept stays in order.
pub proof fn every_record_is_kept_until_it_expires(
    records: Seq<(String, SessionArchive)>,
    now: u64,
)
    ensures
        kept(records, now).len() + dropped(records, now).len() == records.len(),
        forall|i: int| #![trigger records[i]]
            0 <= i < records.len() ==> if now < records[i].1.expires_at_ms {
                kept(records, now).contains(records[i].1)
            } else {
                dropped(records, now).contains(records[i].0@)
            },
        forall|i: int|
            0 <= i < kept(records, now).len() ==> now < (#[trigger] kept(
                records,
                now,
            )[i]).expires_at_ms,
    decreases records.len(),
{
    if records.len() > 0 {
        let rest = records.skip(1);
        every_record_is_kept_until_it_expires(rest, now);
        let first = records[0];
        let stay = kept(records, now);
        let go = dropped(records, now);
        if expired(first.1, now) {
            assert(go[0] == first.0@);
        } else {
            assert(stay[0] == first.1);
        }
        assert forall|i: int| #![trigger records[i]]
            0 <= i < records.len() implies if now < records[i].1.expires_at_ms {
            stay.contains(records[i].1)
        } else {
            go.contains(records[i].0@)
        } by {
            if i > 0 {
                assert(rest[i - 1] == records[i]);
                if now < records[i].1.expires_at_ms {
                    let j = choose|j: int|
                        0 <= j < kept(rest, now).len() && kept(rest, now)[j] == records[i].1;
                    if expired(first.1, now) {
                        assert(stay[j] == records[i].1);
                    } else {
                        assert(stay[j + 1] == records[i].1);
                    }
                } else {
                    let j = choose|j: int|
                        0 <= j < dropped(rest, now).len() && dropped(rest, now)[j]
                            == records[i].0@;
                    if expired(first.1, now) {
                        assert(go[j + 1] == records[i].0@);
                    } else {
                        assert(go[j] == records[i].0@);
                    }
                }
            }
        }
        assert forall|i: int| 0 <= i < stay.len() implies now < (
        #[trigger] stay[i]).expires_at_ms by {
            if expired(first.1, now) {
                assert(stay[i] == kept(rest, now)[i]);
            } else if i > 0 {
                assert(stay[i] == kept(rest, now)[i - 1]);
            }
        }
    }
}

/// Records are about the same session only if host, session and name agree, and
/// every record is about its own.
pub proof fn a_record_is_about_its_session(a: SessionArchive, b: SessionArchive)
    ensures
        a.same_subject(a),
        a.same_subject(b) <==> b.same_subject(a),
        a.same_subject(b) ==> a.session_id@ == b.session_id@ && a.host_key@ == b.host_key@
            && a.name@ == b.name@,
{
}

} // verus!
