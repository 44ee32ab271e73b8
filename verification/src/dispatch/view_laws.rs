//! What each request about the panes that a client sees does: attaching and leaving, its size and
//! its input, and how much it is shown.

use super::input::{input_step, lock_step, resize_step, unlock_step};
use super::peer::{routed, CommandView};
use super::request_laws::{just, refused};
use super::session::{belongs, chosen, close_step, left_panes};
use super::view::{
    attach_step, detach_step, exempt_out, exempted, history_out, pause_out, started_step,
};
use super::{ClientView, Flow, OutView, WorkView};
use crate::app::attach::lemma_leave_keeps_distinct;
use crate::app::laws::law_pane_id_leads_to_its_pane;
use crate::app::{lemma_find_pane, lemma_with_pane_keeps_wf, session_at, AppView};
use crate::messages::MsgView;
use crate::pane::{exempting, sized, InputView};
use crate::protocol::{ClientId, Errno, ErrorCode, ErrorView, InputMode, SequenceNo, TermSize};
use crate::text::lemma_without_text;
use vstd::prelude::*;

verus! {

/// The outcome tells nobody anything and keeps the connection.
pub open spec fn quiet(o: OutView) -> bool {
    &&& o.flow == Flow::Continue
    &&& o.replies.len() == 0
    &&& o.broadcasts.len() == 0
    &&& o.told is None
}

/// Attaching to a pane for the first time: the client has an entry in it, with its size and what
/// it can show, and the pane fits its clients. What the pane had to replay before the client came
/// is asked to be sent, and the clients of a pane that changed size are shown it anew. Nothing
/// else of the daemon changes.
pub proof fn law_attaching(
    a: AppView,
    c: ClientView,
    pane_id: Seq<char>,
    last: Option<SequenceNo>,
    size: TermSize,
    s: int,
    p: int,
)
    requires
        a.wf(),
        c.attached.no_duplicates(),
        !c.attached.contains(pane_id),
        !a.is_proxied_pane(pane_id),
        a.find_pane(pane_id) == Some((s, p)),
    ensures
        ({
            let r = attach_step(a, c, pane_id, last, size);
            let before = a.sessions[s].panes[p];
            let held = before.with_client(c.id(), size, c.capabilities).recomputed();
            &&& r.app == a.with_pane_at(s, p, held.fitted())
            &&& r.client == c
            &&& quiet(r.out)
            &&& r.out.work == Some(WorkView::StartStream(pane_id, before.replay(last)))
            &&& r.out.stopped.len() == 0 && r.out.unviewed.len() == 0
            &&& match held.resize_notice(pane_id) {
                Some(n) => r.out.resizes == seq![n],
                None => r.out.resizes.len() == 0,
            }
        }),
{
    lemma_without_text(c.attached, pane_id);
}

/// Attaching again to a pane of this daemon: the old stream is stopped, the client leaves the pane
/// and comes back, and what it missed is asked to be sent.
pub proof fn law_attaching_again(
    a: AppView,
    c: ClientView,
    pane_id: Seq<char>,
    last: Option<SequenceNo>,
    size: TermSize,
    s: int,
    p: int,
)
    requires
        a.wf(),
        c.attached.no_duplicates(),
        c.attached.contains(pane_id),
        !a.is_proxied_pane(pane_id),
        a.find_pane(pane_id) == Some((s, p)),
    ensures
        ({
            let r = attach_step(a, c, pane_id, last, size);
            let alone = a.sessions[s].panes[p].without_client(c.id()).recomputed().fitted();
            let held = alone.with_client(c.id(), size, c.capabilities).recomputed();
            &&& r.app.sessions.len() == a.sessions.len()
            &&& r.app.sessions[s].panes[p] == held.fitted()
            &&& r.app == a.with_pane_at(s, p, held.fitted())
            &&& r.out.stopped == seq![pane_id]
            &&& r.out.work == Some(WorkView::StartStream(pane_id, alone.replay(last)))
            &&& quiet(r.out)
            &&& forall|q: Seq<char>| #[trigger]
                r.client.attached.contains(q) <==> c.attached.contains(q) && q != pane_id
            &&& r.client == (ClientView { attached: r.client.attached, ..c })
        }),
{
    lemma_without_text(c.attached, pane_id);
    lemma_find_pane(a, pane_id);
    let alone = a.sessions[s].panes[p].left(c.id()).fitted();
    let b = a.with_pane_at(s, p, alone);
    assert(b == a.left_pane(pane_id, c.id()).0);
    assert(alone.pane_index == a.sessions[s].panes[p].pane_index);
    assert(a.sessions[s].wf());
    lemma_leave_keeps_distinct(a.sessions[s].panes[p], c.id());
    lemma_with_pane_keeps_wf(a, s, p, alone);
    law_pane_id_leads_to_its_pane(a, pane_id, s, p);
    law_pane_id_leads_to_its_pane(b, pane_id, s, p);
    assert(b.find_pane(pane_id) == Some((s, p)));
    let held = alone.joined(c.id(), size, c.capabilities).fitted();
    assert(b.with_pane_at(s, p, held) == a.with_pane_at(s, p, held)) by {
        let x = b.with_pane_at(s, p, held);
        let y = a.with_pane_at(s, p, held);
        assert(x.sessions[s].panes =~= y.sessions[s].panes);
        assert(x.sessions =~= y.sessions);
    }
}

/// Attaching to a pane that is not there is an error that names the pane.
pub proof fn law_attaching_to_no_pane(
    a: AppView,
    c: ClientView,
    pane_id: Seq<char>,
    last: Option<SequenceNo>,
    size: TermSize,
)
    requires
        c.attached.no_duplicates(),
        !c.attached.contains(pane_id),
        !a.is_proxied_pane(pane_id),
        a.find_pane(pane_id) is None,
    ensures
        ({
            let r = attach_step(a, c, pane_id, last, size);
            &&& r.app == a
            &&& r.client == c
            &&& refused(r.out, None, ErrorCode::PaneNotFound, "pane not found: "@ + pane_id)
        }),
{
    lemma_without_text(c.attached, pane_id);
}

/// A stream that started counts the pane among those that the client sees; one that did not start
/// leaves the client as it was, and tells it why.
pub proof fn law_stream_started_or_not(c: ClientView, pane_id: Seq<char>, reason: Seq<char>)
    requires
        c.attached.no_duplicates(),
    ensures
        ({
            let (d, out) = started_step(c, pane_id, Ok(()));
            &&& forall|q: Seq<char>| #[trigger]
                d.attached.contains(q) <==> c.attached.contains(q) || q == pane_id
            &&& d == (ClientView { attached: d.attached, ..c })
            &&& just(out, Seq::empty(), Seq::empty(), None)
        }),
        ({
            let (d, out) = started_step(c, pane_id, Err(reason));
            d == c && refused(out, None, ErrorCode::InternalError, reason)
        }),
{
    lemma_without_text(c.attached, pane_id);
}

/// Leaving a pane that a client sees: its stream is stopped, it is gone from the pane, and from
/// its own list. Leaving one that it does not see does nothing.
pub proof fn law_detaching(a: AppView, c: ClientView, pane_id: Seq<char>)
    requires
        c.attached.no_duplicates(),
    ensures
        ({
            let r = detach_step(a, c, pane_id);
            let here = !a.is_proxied_pane(pane_id);
            &&& quiet(r.out) && r.out.work is None
            &&& !c.attached.contains(pane_id) ==> {
                &&& r.app == a
                &&& r.client == c
                &&& just(r.out, Seq::empty(), Seq::empty(), None)
            }
            &&& c.attached.contains(pane_id) ==> {
                &&& r.out.stopped == seq![pane_id]
                &&& forall|q: Seq<char>| #[trigger]
                    r.client.attached.contains(q) <==> c.attached.contains(q) && q != pane_id
                &&& r.client == (ClientView { attached: r.client.attached, ..c })
                &&& here ==> {
                    &&& r.app == a.left_pane(pane_id, c.id()).0
                    &&& r.out.unviewed.len() == 0
                    &&& match a.left_pane(pane_id, c.id()).1 {
                        Some(n) => r.out.resizes == seq![n],
                        None => r.out.resizes.len() == 0,
                    }
                }
                &&& !here ==> {
                    &&& r.app == a
                    &&& r.out.unviewed == seq![pane_id]
                    &&& r.out.resizes.len() == 0
                }
            }
        }),
{
    lemma_without_text(c.attached, pane_id);
}

/// A size that a client reports for a pane of this daemon is recorded in that pane, which then
/// fits its clients; where it changed, they are shown it anew. No pane, no change.
pub proof fn law_reporting_a_size(
    a: AppView,
    pane_id: Seq<char>,
    id: ClientId,
    size: TermSize,
)
    ensures
        ({
            let (b, out) = resize_step(a, pane_id, id, size);
            &&& !a.is_proxied_pane(pane_id) ==> match a.find_pane(pane_id) {
                Some((s, p)) => {
                    let told = a.sessions[s].panes[p].with_flags(id, sized(size));
                    &&& b == a.with_pane_at(s, p, told.fitted())
                    &&& quiet(out) && out.work is None
                    &&& out.stopped.len() == 0 && out.unviewed.len() == 0
                    &&& match told.resize_notice(pane_id) {
                        Some(n) => out.resizes == seq![n],
                        None => out.resizes.len() == 0,
                    }
                },
                None => b == a && refused(
                    out,
                    None,
                    ErrorCode::PaneNotFound,
                    "pane not found: "@ + pane_id,
                ),
            }
            &&& a.is_proxied_pane(pane_id) ==> b == a && just(
                out,
                Seq::empty(),
                Seq::empty(),
                Some(WorkView::ResizeProxied(pane_id, id, size)),
            )
        }),
{
}

/// What is answered to a request for the lock: that it is granted, to who may write from then on,
/// or that it is denied, with the holder. Giving it up is answered where it was held.
pub proof fn law_lock_is_answered(a: AppView, pane_id: Seq<char>, id: ClientId, s: int, p: int)
    requires
        a.find_pane(pane_id) == Some((s, p)),
    ensures
        ({
            let pane = a.sessions[s].panes[p];
            let (b, out) = lock_step(a, pane_id, id);
            &&& forall|holder: ClientId|
                pane.input_mode == InputMode::Locked(holder) && holder != id ==> #[trigger] just(
                out,
                seq![MsgView::InputLockDenied(pane_id, holder)],
                Seq::empty(),
                None,
            )
            &&& pane.input_mode == InputMode::Open || pane.input_mode == InputMode::Locked(id)
                ==> just(out, seq![MsgView::InputLockGranted(pane_id)], Seq::empty(), None)
            &&& b == a.with_pane_at(s, p, pane.lock_requested(id).0)
        }),
        ({
            let pane = a.sessions[s].panes[p];
            let (b, out) = unlock_step(a, pane_id, id);
            &&& pane.input_mode == InputMode::Locked(id) ==> just(
                out,
                seq![MsgView::InputLockReleased(pane_id)],
                Seq::empty(),
                None,
            )
            &&& pane.input_mode != InputMode::Locked(id) ==> just(
                out,
                Seq::empty(),
                Seq::empty(),
                None,
            )
            &&& b == a.with_pane_at(s, p, pane.lock_released(id).0)
        }),
{
}

/// Asking for the lock of a pane that is not there, or giving it up, is an error that names it.
pub proof fn law_no_pane_no_lock(a: AppView, pane_id: Seq<char>, id: ClientId)
    requires
        a.find_pane(pane_id) is None,
    ensures
        ({
            let text = "pane not found: "@ + pane_id;
            let code = ErrorCode::PaneNotFound;
            &&& lock_step(a, pane_id, id).0 == a
            &&& refused(lock_step(a, pane_id, id).1, None, code, text)
            &&& unlock_step(a, pane_id, id).0 == a
            &&& refused(unlock_step(a, pane_id, id).1, None, code, text)
        }),
{
}

/// Input that is taken is not answered; input that is not is answered with what the pane says.
pub proof fn law_input_is_answered_only_when_refused(
    a: AppView,
    pane_id: Seq<char>,
    id: ClientId,
    i: InputView,
    now: u64,
)
    ensures
        ({
            let (b, out) = input_step(a, pane_id, id, i, now);
            let (sent, r) = a.input_sent(pane_id, id, i, now);
            &&& b == sent
            &&& r is Ok ==> just(out, Seq::empty(), Seq::empty(), None)
            &&& r == Err::<(), ErrorView>(ErrorView::PaneNotFound(pane_id)) ==> refused(
                out,
                None,
                ErrorCode::PaneNotFound,
                "pane not found: "@ + pane_id,
            )
            &&& r == Err::<(), ErrorView>(ErrorView::Pty(Errno::EPERM)) ==> refused(
                out,
                None,
                ErrorCode::InputLocked,
                "EPERM: Operation not permitted"@,
            )
            &&& r == Err::<(), ErrorView>(ErrorView::InputQueueFull(pane_id)) ==> refused(
                out,
                None,
                ErrorCode::InternalError,
                "input queue full: "@ + pane_id,
            )
        }),
{
}

/// Pausing reaches the panes of peers where there are any, and exempting a pane reaches its peer
/// where one hosts it; the daemon's own panes need no further work.
pub proof fn law_peers_hear_of_pauses(
    a: AppView,
    id: ClientId,
    pane_id: Seq<char>,
    on: bool,
    auto: bool,
)
    ensures
        a.proxied.len() > 0 ==> just(
            pause_out(a, id, on, auto),
            Seq::empty(),
            Seq::empty(),
            Some(WorkView::PauseProxied(id, on, auto)),
        ),
        a.proxied.len() == 0 ==> just(pause_out(a, id, on, auto), Seq::empty(), Seq::empty(), None),
        a.is_proxied_pane(pane_id) ==> just(
            exempt_out(a, id, pane_id, on),
            Seq::empty(),
            Seq::empty(),
            Some(WorkView::ExemptProxied(id, pane_id, on)),
        ),
        !a.is_proxied_pane(pane_id) ==> just(
            exempt_out(a, id, pane_id, on),
            Seq::empty(),
            Seq::empty(),
            None,
        ),
{
}

/// Exempting a pane of this daemon changes the client's entry in that pane, and nothing else.
pub proof fn law_exempting_a_pane(a: AppView, id: ClientId, pane_id: Seq<char>, on: bool)
    ensures
        match a.find_pane(pane_id) {
            Some((s, p)) => exempted(a, id, pane_id, on) == a.with_pane_at(
                s,
                p,
                a.sessions[s].panes[p].with_flags(id, exempting(on)),
            ),
            None => exempted(a, id, pane_id, on) == a,
        },
{
}

/// The history of a pane is asked for from where, and for as many lines as, the client said; of a
/// pane that is not there there is none.
pub proof fn law_history_is_asked_for(
    a: AppView,
    id: u64,
    pane_id: Seq<char>,
    start: u64,
    count: u32,
)
    ensures
        a.find_pane(pane_id) is Some ==> just(
            history_out(a, id, pane_id, start, count),
            Seq::empty(),
            Seq::empty(),
            Some(WorkView::ReadHistory(id, pane_id, start, count)),
        ),
        a.find_pane(pane_id) is None ==> refused(
            history_out(a, id, pane_id, start, count),
            Some(id),
            ErrorCode::PaneNotFound,
            "pane not found: "@ + pane_id,
        ),
{
}

/// What is meant for a peer's pane is passed on as it is, and what is meant for a pane of this
/// daemon is done here.
pub proof fn law_who_does_the_work(
    a: AppView,
    pane_id: Seq<char>,
    command: CommandView,
    here: (AppView, OutView),
)
    ensures
        a.is_proxied_pane(pane_id) ==> routed(a, pane_id, command, here).0 == a && just(
            routed(a, pane_id, command, here).1,
            Seq::empty(),
            Seq::empty(),
            Some(WorkView::Forward(pane_id, command)),
        ),
        !a.is_proxied_pane(pane_id) ==> routed(a, pane_id, command, here) == here,
{
}

/// Which panes belong to a session: those whose id is its word, a slash, and something.
pub proof fn law_which_panes_belong(word: Seq<char>, rest: Seq<char>, pane_id: Seq<char>)
    ensures
        belongs(word + seq!['/'] + rest, word),
        belongs(pane_id, word) ==> pane_id == word + seq!['/'] + pane_id.skip(
            word.len() as int + 1,
        ),
{
    let whole = word + seq!['/'] + rest;
    assert(whole.take(word.len() as int) =~= word);
    if belongs(pane_id, word) {
        let n = word.len() as int;
        assert(pane_id =~= pane_id.take(n) + seq!['/'] + pane_id.skip(n + 1));
    }
}

/// Picking the panes of a session out of a list, or the others: in order, one by one.
pub proof fn law_panes_are_picked_in_order(
    ids: Seq<Seq<char>>,
    x: Seq<char>,
    word: Seq<char>,
    own: bool,
)
    ensures
        chosen(Seq::empty(), word, own).len() == 0,
        belongs(x, word) == own ==> chosen(ids.push(x), word, own) == chosen(ids, word, own).push(x),
        belongs(x, word) != own ==> chosen(ids.push(x), word, own) == chosen(ids, word, own),
{
    assert(ids.push(x).drop_last() =~= ids);
}

/// Leaving several panes is leaving them one after the other; each that changed size is noted.
pub proof fn law_panes_are_left_one_by_one(
    a: AppView,
    ids: Seq<Seq<char>>,
    x: Seq<char>,
    id: ClientId,
)
    ensures
        left_panes(a, Seq::empty(), id).0 == a,
        left_panes(a, Seq::empty(), id).1.len() == 0,
        ({
            let (b, notices) = left_panes(a, ids, id);
            let (c, n) = b.left_pane(x, id);
            let (d, all) = left_panes(a, ids.push(x), id);
            &&& d == c
            &&& n matches Some(r) ==> all == notices.push(r)
            &&& n is None ==> all == notices
        }),
{
    assert(ids.push(x).drop_last() =~= ids);
}

/// Closing a session first takes its client out of all its panes: their streams are stopped, the
/// others stay as they are. A capture of the session is asked for, where there is one.
pub proof fn law_asking_to_close_a_session(a: AppView, c: ClientView, id: u64, word: Seq<char>)
    ensures
        ({
            let r = close_step(a, c, id, word);
            let own = chosen(c.attached, word, true);
            &&& r.out.stopped == own
            &&& r.client.attached == chosen(c.attached, word, false)
            &&& r.client == (ClientView { attached: r.client.attached, ..c })
            &&& (r.app, r.out.resizes) == left_panes(a, own, c.id())
            &&& r.out.flow == Flow::Continue
            &&& r.out.broadcasts.len() == 0 && r.out.unviewed.len() == 0 && r.out.told is None
            &&& session_at(r.app.sessions, word) is Some ==> r.out.replies.len() == 0
                && r.out.work == Some(WorkView::CaptureSession(id, word))
            &&& session_at(r.app.sessions, word) is None ==> r.out.work is None && r.out.replies
                == seq![
                MsgView::Error(
                    Some(id),
                    ErrorCode::SessionNotFound,
                    "session not found: "@ + word,
                ),
            ]
        }),
{
}

} // verus!
