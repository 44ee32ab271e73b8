//! Questions about the daemon and its machine, notifications, and the round trip of a ping.

use super::{OutView, Outcome, SharedClientState, Work, WorkView};
use crate::app::clients::Clock;
use crate::app::recover::all_pane_ids;
use crate::app::{AppView, ServerApp};
use crate::events::{EventView, SessionEventMsg};
use crate::list::{
    arranged, group_views, is_stable_order, law_stable_order, positions, precedes, sorted_order,
    stable_order,
};
use crate::messages::{DirEntry, DirEntryView, MsgView, PaneProcesses, ServerMessage};
use crate::protocol::{pane_not_found, AttentionKind, ErrorCode, ErrorView};
use crate::text::{
    lemma_text_order, lowercase, lowercase_text, text_before, text_less, text_option, views,
};
use vstd::prelude::*;
use vstd::string::StringExecFns;

verus! {

/// Bytes of the log in one message.
pub const LOG_CHUNK_BYTES: usize = 65536;

/// Entries of a directory in one message at most.
pub const MAX_DIR_ENTRIES: usize = 2000;

// ─── The log ─────────────────────────────────────────────────────────────────

/// How reading the daemon's log went.
#[derive(Debug)]
pub enum LogRead {
    /// It is not known where the log is.
    NoPath(String),
    /// The log cannot be opened.
    Unreadable { path: String, error: String },
    /// The log was opened, but reading it failed.
    Failed(String),
    /// The log's content, and where its last lines start, as many as were asked for.
    Content { data: Vec<u8>, start: usize },
}

/// Time between two looks at a log that is followed, in milliseconds.
pub const LOG_TICK_MS: u64 = 150;

/// Where the part of a log that was asked for starts: at the very beginning, unless only so many
/// lines were asked for.
pub open spec fn log_start(lines: Option<u32>, start: usize) -> usize {
    match lines {
        Some(_) => start,
        None => 0,
    }
}

/// Bytes in pieces of `n`, the last of which may be shorter.
pub open spec fn chunks(data: Seq<u8>, n: nat) -> Seq<Seq<u8>>
    decreases data.len(),
{
    if data.len() == 0 || n == 0 {
        Seq::empty()
    } else if data.len() <= n {
        seq![data]
    } else {
        seq![data.take(n as int)] + chunks(data.skip(n as int), n)
    }
}

/// The pieces as messages.
pub open spec fn chunk_msgs(request_id: u64, cs: Seq<Seq<u8>>) -> Seq<MsgView> {
    Seq::new(cs.len(), |i: int| MsgView::LogChunk(request_id, cs[i]))
}

/// The answer to a request for the log. Followed, it goes on with what is written later.
pub open spec fn log_out(
    request_id: u64,
    lines: Option<u32>,
    follow: bool,
    read: LogRead,
) -> OutView {
    match read {
        LogRead::NoPath(e) => OutView::reply(
            MsgView::Error(
                Some(request_id),
                ErrorCode::InternalError,
                "daemon log path unavailable: "@ + e@,
            ),
        ),
        LogRead::Unreadable { path, error } => OutView::reply(
            MsgView::Error(
                Some(request_id),
                ErrorCode::InternalError,
                "daemon log not readable at "@ + path@ + ": "@ + error@,
            ),
        ),
        LogRead::Failed(e) => OutView::reply(
            MsgView::Error(
                Some(request_id),
                ErrorCode::InternalError,
                "reading daemon log failed: "@ + e@,
            ),
        ),
        LogRead::Content { data, start } => {
            let sent = chunk_msgs(
                request_id,
                chunks(data@.skip(log_start(lines, start) as int), LOG_CHUNK_BYTES as nat),
            );
            if follow {
                OutView { replies: sent, ..OutView::needing(WorkView::FollowLog(request_id)) }
            } else {
                OutView {
                    replies: sent.push(MsgView::LogEnd(request_id)),
                    ..OutView::nothing()
                }
            }
        },
    }
}

/// The pieces put together again are the whole: nothing of the log is lost or repeated, no piece
/// is empty, and none is longer than asked.
pub proof fn law_chunks_make_the_whole(data: Seq<u8>, n: nat)
    requires
        n > 0,
    ensures
        joined(chunks(data, n)) == data,
        forall|i: int|
            0 <= i < chunks(data, n).len() ==> 1 <= (#[trigger] chunks(data, n)[i]).len() <= n,
    decreases data.len(),
{
    if data.len() == 0 {
    } else if data.len() <= n {
        let s = seq![data];
        assert(s.drop_first() =~= Seq::<Seq<u8>>::empty());
        assert(joined(s.drop_first()) =~= Seq::<u8>::empty());
        assert(data + Seq::<u8>::empty() =~= data);
    } else {
        law_chunks_make_the_whole(data.skip(n as int), n);
        let rest = chunks(data.skip(n as int), n);
        let s = seq![data.take(n as int)] + rest;
        assert(s.drop_first() =~= rest);
        assert(data.take(n as int) + data.skip(n as int) =~= data);
        assert forall|i: int| 0 <= i < s.len() implies 1 <= (#[trigger] s[i]).len() <= n by {
            if i > 0 {
                assert(s[i] == rest[i - 1]);
            }
        }
    }
}

/// Pieces put together.
pub open spec fn joined(cs: Seq<Seq<u8>>) -> Seq<u8>
    decreases cs.len(),
{
    if cs.len() == 0 {
        Seq::empty()
    } else {
        cs[0] + joined(cs.drop_first())
    }
}

/// A log that was asked for without a number of lines is sent whole, from its first byte to its
/// last, and ends unless it is followed.
pub proof fn law_log_is_sent_whole(request_id: u64, follow: bool, data: Vec<u8>, start: usize)
    ensures
        ({
            let out = log_out(request_id, None, follow, LogRead::Content { data, start });
            let cs = chunks(data@, LOG_CHUNK_BYTES as nat);
            &&& joined(cs) == data@
            &&& follow ==> out.replies == chunk_msgs(request_id, cs) && out.work == Some(
                WorkView::FollowLog(request_id),
            )
            &&& !follow ==> out.replies == chunk_msgs(request_id, cs).push(
                MsgView::LogEnd(request_id),
            ) && out.work is None
        }),
{
    law_chunks_make_the_whole(data@, LOG_CHUNK_BYTES as nat);
    assert(data@.skip(0) =~= data@);
}

/// Ask for the daemon's log.
pub fn on_fetch_logs(request_id: u64, lines: Option<u32>, follow: bool) -> (r: Outcome)
    ensures
        r@ == OutView::needing(WorkView::ReadLog(request_id, lines, follow)),
{
    Outcome::needing(Work::ReadLog { request_id, lines, follow })
}

fn log_error(request_id: u64, text: String) -> (r: Outcome)
    ensures
        r@ == OutView::reply(
            MsgView::Error(Some(request_id), ErrorCode::InternalError, text@),
        ),
{
    Outcome::refusal(Some(request_id), ErrorCode::InternalError, text)
}

/// Answer with the daemon's log, in pieces: the whole, or its last lines where `lines` says how
/// many.
pub fn finish_fetch_logs(
    request_id: u64,
    lines: Option<u32>,
    follow: bool,
    read: LogRead,
) -> (r: Outcome)
    requires
        lines is Some ==> (read matches LogRead::Content { data, start } ==> start <= data@.len()),
    ensures
        r@ == log_out(request_id, lines, follow, read),
{
    broadcast use group_views;

    match read {
        LogRead::NoPath(e) => {
            let mut text = "daemon log path unavailable: ".to_owned();
            text.append(e.as_str());
            log_error(request_id, text)
        },
        LogRead::Unreadable { path, error } => {
            let mut text = "daemon log not readable at ".to_owned();
            text.append(path.as_str());
            text.append(": ");
            text.append(error.as_str());
            log_error(request_id, text)
        },
        LogRead::Failed(e) => {
            let mut text = "reading daemon log failed: ".to_owned();
            text.append(e.as_str());
            log_error(request_id, text)
        },
        LogRead::Content { data, start: found } => {
            let start: usize = match lines {
                Some(_) => found,
                None => 0,
            };
            let ghost n = LOG_CHUNK_BYTES as nat;
            let ghost all = chunks(data@.skip(start as int), n);
            let mut out = Outcome::nothing();
            let mut at: usize = start;
            proof {
                assert(Seq::<Seq<u8>>::empty() + all =~= all);
                assert(out@.replies =~= chunk_msgs(request_id, Seq::<Seq<u8>>::empty()));
            }
            let ghost mut done: Seq<Seq<u8>> = Seq::empty();
            while at < data.len()
                invariant
                    start <= at <= data@.len(),
                    n == LOG_CHUNK_BYTES,
                    all == done + chunks(data@.skip(at as int), n),
                    out@ == (OutView {
                        replies: chunk_msgs(request_id, done),
                        ..OutView::nothing()
                    }),
                decreases data@.len() - at,
            {
                let ghost rest = data@.skip(at as int);
                let left: usize = data.len() - at;
                let size: usize = if left <= LOG_CHUNK_BYTES {
                    left
                } else {
                    LOG_CHUNK_BYTES
                };
                let part = vstd::slice::slice_subrange(data.as_slice(), at, at + size);
                let mut chunk: Vec<u8> = Vec::new();
                chunk.extend_from_slice(part);
                proof {
                    assert(chunk@ =~= rest.take(size as int));
                    assert(rest.skip(size as int) =~= data@.skip(at + size));
                    if left <= LOG_CHUNK_BYTES {
                        assert(rest.take(size as int) =~= rest);
                        assert(chunks(data@.skip(at + size), n) =~= Seq::<Seq<u8>>::empty());
                        assert(chunks(rest, n) =~= seq![rest] + Seq::<Seq<u8>>::empty());
                    }
                    assert(chunks(rest, n) == seq![rest.take(size as int)] + chunks(
                        data@.skip(at + size),
                        n,
                    ));
                    let next = done.push(chunk@);
                    assert(all =~= next + chunks(data@.skip(at + size), n));
                    assert(chunk_msgs(request_id, next) =~= chunk_msgs(request_id, done).push(
                        MsgView::LogChunk(request_id, chunk@),
                    ));
                    done = next;
                }
                let ghost before = out@.replies;
                let ghost piece = chunk@;
                out.replies.push(ServerMessage::LogChunk { request_id, data: chunk });
                assert(out@.replies =~= before.push(MsgView::LogChunk(request_id, piece)));
                at = at + size;
            }
            proof {
                assert(chunks(data@.skip(at as int), n) =~= Seq::<Seq<u8>>::empty());
                assert(done =~= all);
            }
            if follow {
                out.work = Some(Work::FollowLog { request_id });
            } else {
                out.replies.push(ServerMessage::LogEnd { request_id });
            }
            out
        },
    }
}

/// One look at a log that is followed: what to send, and whether to look again. It is over once
/// the connection is closed or reading fails; where nothing was written, nothing is sent.
pub fn on_log_tick(request_id: u64, open: bool, read: Result<Vec<u8>, ()>) -> (r: (Outcome, bool))
    ensures
        r.0@ == match read {
            Ok(data) => if open && data@.len() > 0 {
                OutView::reply(MsgView::LogChunk(request_id, data@))
            } else {
                OutView::nothing()
            },
            Err(_) => OutView::nothing(),
        },
        r.1 == (open && read is Ok),
{
    match read {
        Ok(data) => if open && data.len() > 0 {
            (Outcome::reply(ServerMessage::LogChunk { request_id, data }), true)
        } else {
            (Outcome::nothing(), open)
        },
        Err(_) => (Outcome::nothing(), false),
    }
}

// ─── Directories ─────────────────────────────────────────────────────────────

/// One entry of a directory as it was found.
#[derive(Debug)]
pub struct FoundEntry {
    /// Its name; none where it is no text.
    pub name: Option<String>,
    pub is_dir: bool,
    /// It is a link that leads to a directory.
    pub links_to_dir: bool,
}

pub struct FoundView {
    pub name: Option<Seq<char>>,
    pub is_dir: bool,
    pub links_to_dir: bool,
}

impl View for FoundEntry {
    type V = FoundView;

    open spec fn view(&self) -> FoundView {
        FoundView {
            name: text_option(self.name),
            is_dir: self.is_dir,
            links_to_dir: self.links_to_dir,
        }
    }
}

/// A directory as it was found.
#[derive(Debug)]
pub struct FoundDirectory {
    pub path: String,
    pub parent: Option<String>,
    pub entries: Vec<FoundEntry>,
}

/// The names of those entries that are directories, or links to one.
pub open spec fn dir_names(entries: Seq<FoundView>) -> Seq<Seq<char>>
    decreases entries.len(),
{
    if entries.len() == 0 {
        Seq::empty()
    } else {
        let rest = dir_names(entries.drop_last());
        let e = entries.last();
        match e.name {
            Some(name) => if e.is_dir || e.links_to_dir {
                rest.push(name)
            } else {
                rest
            },
            None => rest,
        }
    }
}

/// How many of the first `n` names stand before a name, case aside.
pub open spec fn count_before(names: Seq<Seq<char>>, name: Seq<char>, n: int) -> nat
    decreases n,
{
    if n <= 0 {
        0
    } else {
        count_before(names, name, n - 1) + if text_less(
            lowercase_text(names[n - 1]),
            lowercase_text(name),
        ) {
            1nat
        } else {
            0nat
        }
    }
}

/// The rank of each name, case aside.
pub open spec fn ranks(names: Seq<Seq<char>>) -> Seq<u64> {
    Seq::new(names.len(), |i: int| count_before(names, names[i], names.len() as int) as u64)
}

/// Names in dictionary order, case aside; those that differ only in case keep their order.
pub open spec fn in_order(names: Seq<Seq<char>>) -> Seq<Seq<char>> {
    arranged(names, stable_order(ranks(names)))
}

/// Directories as they are listed: in order, and only so many.
pub open spec fn listed_dirs(names: Seq<Seq<char>>) -> Seq<DirEntryView> {
    let sorted = in_order(names);
    let n = if sorted.len() <= MAX_DIR_ENTRIES {
        sorted.len()
    } else {
        MAX_DIR_ENTRIES as nat
    };
    Seq::new(n, |i: int| DirEntryView { name: sorted[i], is_dir: true })
}

proof fn lemma_count_bound(names: Seq<Seq<char>>, name: Seq<char>, n: int)
    ensures
        count_before(names, name, n) <= if n <= 0 {
            0
        } else {
            n
        },
    decreases n,
{
    if n > 0 {
        lemma_count_bound(names, name, n - 1);
    }
}

/// A name that stands before another has no higher count, and a lower one once it is itself
/// counted.
proof fn lemma_count_monotone(names: Seq<Seq<char>>, a: Seq<char>, b: Seq<char>, n: int)
    requires
        text_less(lowercase_text(a), lowercase_text(b)),
        0 <= n <= names.len(),
    ensures
        count_before(names, a, n) <= count_before(names, b, n),
        (exists|k: int| 0 <= k < n && names[k] == a) ==> count_before(names, a, n)
            < count_before(names, b, n),
    decreases n,
{
    if n > 0 {
        lemma_count_monotone(names, a, b, n - 1);
        lemma_text_order(
            lowercase_text(names[n - 1]),
            lowercase_text(a),
            lowercase_text(b),
        );
        if exists|k: int| 0 <= k < n && names[k] == a {
            let k = choose|k: int| 0 <= k < n && names[k] == a;
            if k == n - 1 {
                lemma_text_order(lowercase_text(a), lowercase_text(a), lowercase_text(b));
            } else {
                assert(0 <= k < n - 1 && names[k] == a);
            }
        }
    }
}

/// Listed names are in dictionary order, case aside: none stands before one listed earlier.
pub proof fn law_listed_in_order(names: Seq<Seq<char>>, i: int, j: int)
    requires
        0 <= i < j < names.len(),
        names.len() <= u64::MAX,
    ensures
        in_order(names).len() == names.len(),
        !text_less(lowercase_text(in_order(names)[j]), lowercase_text(in_order(names)[i])),
{
    let rs = ranks(names);
    let o = stable_order(rs);
    law_stable_order(rs);
    let n = names.len() as int;
    assert(precedes(rs, o[i], o[j]));
    let a = names[o[j]];
    let b = names[o[i]];
    if text_less(lowercase_text(a), lowercase_text(b)) {
        lemma_count_monotone(names, a, b, n);
        lemma_count_bound(names, a, n);
        lemma_count_bound(names, b, n);
        assert(names[o[j]] == a);
        assert(rs[o[j]] < rs[o[i]]);
    }
}

/// Ask for the directories in a directory.
pub fn on_list_directory(request_id: u64, path: String) -> (r: Outcome)
    ensures
        r@ == OutView::needing(WorkView::ReadDirectory(request_id, path@)),
{
    Outcome::needing(Work::ReadDirectory { request_id, path })
}

pub open spec fn directory_msg(
    request_id: u64,
    requested: Seq<char>,
    found: Result<FoundDirectory, String>,
) -> MsgView {
    match found {
        Ok(d) => MsgView::DirectoryListing(
            request_id,
            d.path@,
            text_option(d.parent),
            listed_dirs(dir_names(views(d.entries@))),
            None,
        ),
        Err(e) => MsgView::DirectoryListing(request_id, requested, None, Seq::empty(), Some(e@)),
    }
}

/// The names of the directories among some entries.
fn names_of_dirs(entries: Vec<FoundEntry>) -> (r: Vec<String>)
    ensures
        views(r@) == dir_names(views(entries@)),
{
    broadcast use group_views;

    let mut out: Vec<String> = Vec::new();
    let mut i: usize = 0;
    let ghost all = views(entries@);
    assert(views(out@) =~= dir_names(all.take(0)));
    while i < entries.len()
        invariant
            0 <= i <= entries@.len(),
            all == views(entries@),
            views(out@) == dir_names(all.take(i as int)),
        decreases entries@.len() - i,
    {
        let ghost next = all.take(i + 1);
        assert(next.drop_last() =~= all.take(i as int));
        assert(next.last() == entries@[i as int]@);
        if let Some(name) = &entries[i].name {
            if entries[i].is_dir || entries[i].links_to_dir {
                out.push(name.clone());
            }
        }
        i = i + 1;
    }
    assert(all.take(i as int) =~= all);
    out
}

/// The rank of each name, case aside.
fn name_ranks(names: &Vec<String>) -> (r: Vec<u64>)
    ensures
        r@ == ranks(views(names@)),
{
    let ghost all = views(names@);
    let mut lower: Vec<String> = Vec::new();
    let mut k: usize = 0;
    while k < names.len()
        invariant
            0 <= k <= names@.len(),
            all == views(names@),
            lower@.len() == k,
            forall|j: int| 0 <= j < k ==> (#[trigger] lower@[j])@ == lowercase_text(all[j]),
        decreases names@.len() - k,
    {
        assert(all[k as int] == names@[k as int]@);
        lower.push(lowercase(names[k].as_str()));
        k = k + 1;
    }
    let mut out: Vec<u64> = Vec::new();
    let mut i: usize = 0;
    while i < names.len()
        invariant
            0 <= i <= names@.len(),
            all == views(names@),
            lower@.len() == names@.len(),
            forall|j: int|
                0 <= j < names@.len() ==> (#[trigger] lower@[j])@ == lowercase_text(all[j]),
            out@.len() == i,
            forall|j: int| 0 <= j < i ==> #[trigger] out@[j] == ranks(all)[j],
        decreases names@.len() - i,
    {
        let mut count: u64 = 0;
        let mut m: usize = 0;
        while m < names.len()
            invariant
                0 <= m <= names@.len(),
                i < names@.len(),
                all == views(names@),
                lower@.len() == names@.len(),
                forall|j: int|
                    0 <= j < names@.len() ==> (#[trigger] lower@[j])@ == lowercase_text(all[j]),
                count == count_before(all, all[i as int], m as int),
                count <= m,
            decreases names@.len() - m,
        {
            assert(lower@[m as int]@ == lowercase_text(all[m as int]));
            assert(lower@[i as int]@ == lowercase_text(all[i as int]));
            if text_before(lower[m].as_str(), lower[i].as_str()) {
                count = count + 1;
            }
            m = m + 1;
        }
        out.push(count);
        i = i + 1;
    }
    assert(out@ =~= ranks(all));
    out
}

/// Answer with the directories in a directory: sorted, case aside, and only so many. Where the
/// directory cannot be read, the requested path is given back with the error.
pub fn list_directory(
    request_id: u64,
    requested: String,
    found: Result<FoundDirectory, String>,
) -> (r: ServerMessage)
    ensures
        r@ == directory_msg(request_id, requested@, found),
{
    broadcast use group_views;

    match found {
        Err(e) => {
            let entries: Vec<DirEntry> = Vec::new();
            assert(views(entries@) =~= Seq::<DirEntryView>::empty());
            ServerMessage::DirectoryListing {
                request_id,
                path: requested,
                parent: None,
                entries,
                error: Some(e),
            }
        },
        Ok(d) => {
            let ghost all = dir_names(views(d.entries@));
            let names = names_of_dirs(d.entries);
            let keys = name_ranks(&names);
            let order = sorted_order(&keys);
            let ghost o = stable_order(keys@);
            let mut entries: Vec<DirEntry> = Vec::new();
            let mut i: usize = 0;
            while i < order.len() && i < MAX_DIR_ENTRIES
                invariant
                    0 <= i <= order@.len(),
                    i <= MAX_DIR_ENTRIES,
                    views(names@) == all,
                    keys@ == ranks(all),
                    o == stable_order(keys@),
                    positions(order@) == o,
                    is_stable_order(keys@, o),
                    entries@.len() == i,
                    forall|j: int|
                        0 <= j < i ==> (#[trigger] entries@[j])@ == (DirEntryView {
                            name: in_order(all)[j],
                            is_dir: true,
                        }),
                decreases order@.len() - i,
            {
                assert(o[i as int] == order@[i as int] as int);
                let at: usize = order[i];
                assert(all[at as int] == names@[at as int]@);
                entries.push(DirEntry { name: names[at].clone(), is_dir: true });
                i = i + 1;
            }
            assert(views(entries@) =~= listed_dirs(all));
            ServerMessage::DirectoryListing {
                request_id,
                path: d.path,
                parent: d.parent,
                entries,
                error: None,
            }
        },
    }
}

/// Answer with the directories in a directory.
pub fn finish_list_directory(
    request_id: u64,
    requested: String,
    found: Result<FoundDirectory, String>,
) -> (r: Outcome)
    ensures
        r@ == OutView::reply(directory_msg(request_id, requested@, found)),
{
    Outcome::reply(list_directory(request_id, requested, found))
}

// ─── Processes, notifications, pings ─────────────────────────────────────────

/// Ask for the processes of all panes.
pub fn on_process_overview(app: &ServerApp, request_id: u64) -> (r: Outcome)
    ensures
        r@ == OutView::needing(
            WorkView::ListProcesses(request_id, all_pane_ids(app@.sessions)),
        ),
{
    Outcome::needing(Work::ListProcesses { request_id, pane_ids: app.pane_ids() })
}

/// Answer with the processes of all panes: this daemon's own, then those of its peers.
pub fn finish_process_overview(
    request_id: u64,
    own: Vec<PaneProcesses>,
    remote: Vec<PaneProcesses>,
) -> (r: Outcome)
    ensures
        r@ == OutView::reply(
            MsgView::ProcessOverviewResult(request_id, views(own@) + views(remote@)),
        ),
{
    let mut panes = own;
    let mut rest = remote;
    panes.append(&mut rest);
    assert(views(panes@) =~= views(own@) + views(remote@));
    Outcome::reply(ServerMessage::ProcessOverviewResult { request_id, panes })
}

pub open spec fn notify_out(
    a: AppView,
    request_id: u64,
    pane_id: Seq<char>,
    kind: AttentionKind,
    title: Seq<char>,
    body: Seq<char>,
) -> OutView {
    if a.find_pane(pane_id) is Some {
        OutView::reply(MsgView::NotifyAccepted(request_id)).and_broadcast(
            MsgView::Event(EventView::PaneAttention(pane_id, kind, title, body)),
        )
    } else {
        OutView::error(Some(request_id), ErrorView::PaneNotFound(pane_id))
    }
}

/// Draw everyone's attention to a pane.
pub fn on_notify(
    app: &ServerApp,
    request_id: u64,
    pane_id: String,
    kind: AttentionKind,
    title: String,
    body: String,
) -> (r: Outcome)
    ensures
        r@ == notify_out(app@, request_id, pane_id@, kind, title@, body@),
{
    match app.pane_position(pane_id.as_str()) {
        Some(_) => {
            let mut r = Outcome::reply(ServerMessage::NotifyAccepted { request_id });
            r.broadcast(
                ServerMessage::Event {
                    event: SessionEventMsg::PaneAttention { pane_id, kind, title, body },
                },
            );
            r
        },
        None => Outcome::error(Some(request_id), &pane_not_found(pane_id.as_str())),
    }
}

/// Answer a ping.
pub fn on_ping(seq: u64) -> (r: Outcome)
    ensures
        r@ == OutView::reply(MsgView::Pong(seq)),
{
    Outcome::reply(ServerMessage::Pong { seq })
}

/// Measure the round trip of the ping that a pong answers. Any other pong is ignored.
pub fn on_pong(state: &mut SharedClientState, seq: u64, now: Clock) -> (r: Outcome)
    ensures
        final(state)@ == (super::ClientView {
            metrics: old(state)@.metrics.ponged(seq, now.monotonic_ms, now.epoch_ms),
            ..old(state)@
        }),
        r@ == OutView::nothing(),
{
    state.metrics.on_pong(seq, now.monotonic_ms, now.epoch_ms);
    Outcome::nothing()
}

} // verus!
