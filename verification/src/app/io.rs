//! Input to panes, their size, signals, and the exclusive input lock.

use super::attach::lemma_flags_keep_distinct;
use super::{
    lemma_find_pane, lemma_with_pane_keeps_wf, lemma_with_session_keeps_wf, AppView, ServerApp,
    INPUT_QUEUE_CAPACITY,
};
use crate::pane::{
    notice_view, sized, InputLockOutcome, InputView, PaneInput, PaneRelay, PaneView, ResizeNotice,
};
use crate::protocol::{
    as_pane_error, pane_error, pane_not_found, ClientId, Errno, ErrorView, KeyEvent, KmuxError,
    TermSize,
};
use crate::session::SessionView;
use crate::text::views;
use vstd::prelude::*;

verus! {

/// Signal numbers that POSIX fixes: HUP, INT, QUIT, ABRT, KILL, ALRM and TERM.
pub open spec fn is_fixed_signal(n: i32) -> bool {
    n == 1 || n == 2 || n == 3 || n == 6 || n == 9 || n == 14 || n == 15
}

/// `nix::sys::signal::Signal::try_from`, as the number of the signal that comes out: the number
/// that went in, where it is that of a signal. The numbers POSIX fixes are signals everywhere;
/// zero and negative numbers are signals nowhere. Which other numbers are signals differs between
/// systems and is left open.
#[verifier::external_body]
fn signal_of(n: i32) -> (r: Option<i32>)
    ensures
        r matches Some(s) ==> s == n,
        is_fixed_signal(n) ==> r is Some,
        n <= 0 ==> r is None,
{
    nix::sys::signal::Signal::try_from(n).ok().map(|s| s as i32)
}

impl AppView {
    /// The state with the activity of a session noted.
    pub open spec fn touched(self, s: int, now_ms: u64) -> AppView {
        self.with_session_at(
            s,
            SessionView { last_active_ms: now_ms, ..self.sessions[s] },
        )
    }

    /// The state and the answer after a client sent input to a pane. The pane and the right to
    /// write are checked before anything else; an empty batch of keys then does nothing; other
    /// input counts as activity of the session even where the pane's queue is full.
    pub open spec fn input_sent(
        self,
        pane_id: Seq<char>,
        client_id: ClientId,
        input: InputView,
        now_ms: u64,
    ) -> (AppView, Result<(), ErrorView>) {
        match self.find_pane(pane_id) {
            None => (self, Err(ErrorView::PaneNotFound(pane_id))),
            Some((s, p)) => {
                let pane = self.sessions[s].panes[p];
                if !pane.writable_by(client_id) {
                    (self, Err(ErrorView::Pty(Errno::EPERM)))
                } else if input.is_nothing() {
                    (self, Ok(()))
                } else if pane.input.len() < INPUT_QUEUE_CAPACITY {
                    (
                        self.touched(s, now_ms).with_pane_at(
                            s,
                            p,
                            PaneView { input: pane.input.push(input), ..pane },
                        ),
                        Ok(()),
                    )
                } else {
                    (self.touched(s, now_ms), Err(ErrorView::InputQueueFull(pane_id)))
                }
            },
        }
    }
}

/// The model of an answer without a value.
pub open spec fn unit_result(r: Result<(), KmuxError>) -> Result<(), ErrorView> {
    match r {
        Ok(_) => Ok(()),
        Err(e) => Err(e@),
    }
}

/// Looking up a pane: the pane, or the error that every miss is answered with.
pub open spec fn found_pane(a: AppView, pane_id: Seq<char>) -> Result<PaneView, ErrorView> {
    match a.find_pane(pane_id) {
        Some((s, p)) => Ok(a.sessions[s].panes[p]),
        None => Err(ErrorView::PaneNotFound(pane_id)),
    }
}

impl ServerApp {
    /// Look up a pane.
    pub fn get_pane_relay(&self, pane_id: &str) -> (r: Result<&PaneRelay, KmuxError>)
        ensures
            match r {
                Ok(pane) => found_pane(self@, pane_id@) == Ok::<PaneView, ErrorView>(pane@),
                Err(e) => found_pane(self@, pane_id@) == Err::<PaneView, ErrorView>(e@),
            },
    {
        match self.pane_position(pane_id) {
            Some((s, p)) => {
                assert(self@.sessions[s as int] == self.sessions@[s as int]@);
                Ok(&self.sessions[s].panes[p])
            },
            None => Err(pane_not_found(pane_id)),
        }
    }

    /// Note the activity of the session a pane belongs to.
    fn touch_session(&mut self, s: usize, now_ms: u64)
        requires
            s < old(self).sessions@.len(),
        ensures
            final(self)@ == old(self)@.touched(s as int, now_ms),
            final(self).sessions@.len() == old(self).sessions@.len(),
            final(self).sessions@[s as int].panes@ == old(self).sessions@[s as int].panes@,
    {
        broadcast use crate::list::group_views;

        self.sessions[s].last_active_ms = now_ms;
        assert(self@.sessions =~= old(self)@.touched(s as int, now_ms).sessions);
    }

    /// Check that a client may write to a pane, then hand the input to the pane's queue.
    fn enqueue_input(&mut self, pane_id: &str, client_id: ClientId, input: PaneInput, now_ms: u64)
        -> (r: Result<(), KmuxError>)
        ensures
            (final(self)@, unit_result(r)) == old(self)@.input_sent(
                pane_id@,
                client_id,
                input@,
                now_ms,
            ),
            old(self)@.wf() ==> final(self)@.wf(),
    {
        let ghost before = self@;
        match self.pane_position(pane_id) {
            None => Err(pane_not_found(pane_id)),
            Some((s, p)) => {
                proof {
                    lemma_find_pane(before, pane_id@);
                    assert(before.sessions[s as int] == self.sessions@[s as int]@);
                    if before.wf() {
                        assert(before.sessions[s as int].wf());
                        lemma_touch_keeps_wf(before, s as int, now_ms);
                        let pane = before.sessions[s as int].panes[p as int];
                        lemma_with_pane_keeps_wf(
                            before.touched(s as int, now_ms),
                            s as int,
                            p as int,
                            PaneView { input: pane.input.push(input@), ..pane },
                        );
                    }
                }
                match self.sessions[s].panes[p].check_writable(client_id) {
                    Err(e) => Err(e),
                    Ok(_) => if input.is_nothing() {
                        Ok(())
                    } else {
                        self.touch_session(s, now_ms);
                        proof {
                            let same = self@.sessions[s as int].panes[p as int];
                            assert(same == before.sessions[s as int].panes[p as int]);
                            let t = self@.sessions[s as int];
                            assert(t.panes.update(p as int, same) =~= t.panes);
                            assert(self@.with_pane_at(s as int, p as int, same).sessions
                                =~= self@.sessions);
                        }
                        self.pane_slot(s, p).enqueue_input(pane_id, input, INPUT_QUEUE_CAPACITY)
                    },
                }
            },
        }
    }

    /// Queue user input bytes for a pane's child process.
    pub fn write_input(&mut self, pane_id: &str, client_id: ClientId, data: Vec<u8>, now_ms: u64)
        -> (r: Result<(), KmuxError>)
        ensures
            (final(self)@, unit_result(r)) == old(self)@.input_sent(
                pane_id@,
                client_id,
                InputView::Bytes(data@),
                now_ms,
            ),
            old(self)@.wf() ==> final(self)@.wf(),
    {
        self.enqueue_input(pane_id, client_id, PaneInput::Bytes(data), now_ms)
    }

    /// Queue a batch of key events for a pane.
    pub fn write_key_batch(
        &mut self,
        pane_id: &str,
        client_id: ClientId,
        events: Vec<KeyEvent>,
        now_ms: u64,
    ) -> (r: Result<(), KmuxError>)
        ensures
            (final(self)@, unit_result(r)) == old(self)@.input_sent(
                pane_id@,
                client_id,
                InputView::Keys(views(events@)),
                now_ms,
            ),
            old(self)@.wf() ==> final(self)@.wf(),
    {
        self.enqueue_input(pane_id, client_id, PaneInput::Keys(events), now_ms)
    }

    /// Queue pasted text, as its UTF-8 bytes, for a pane's child process.
    pub fn write_paste(&mut self, pane_id: &str, client_id: ClientId, data: Vec<u8>, now_ms: u64)
        -> (r: Result<(), KmuxError>)
        ensures
            (final(self)@, unit_result(r)) == old(self)@.input_sent(
                pane_id@,
                client_id,
                InputView::Paste(data@),
                now_ms,
            ),
            old(self)@.wf() ==> final(self)@.wf(),
    {
        self.enqueue_input(pane_id, client_id, PaneInput::Paste(data), now_ms)
    }

    /// Record the size a client reports for a pane. Returns the size change to announce, and to
    /// pass on to the child process, where the clients now agree on another size.
    pub fn resize(&mut self, pane_id: &str, client_id: ClientId, size: TermSize) -> (r: Result<
        Option<ResizeNotice>,
        KmuxError,
    >)
        ensures
            match old(self)@.find_pane(pane_id@) {
                Some((s, p)) => {
                    let pane = old(self)@.sessions[s].panes[p].with_flags(client_id, sized(size));
                    &&& final(self)@ == old(self)@.with_pane_at(s, p, pane.fitted())
                    &&& r matches Ok(n) && notice_view(n) == pane.resize_notice(pane_id@)
                },
                None => {
                    &&& final(self)@ == old(self)@
                    &&& r matches Err(e) && e@ == ErrorView::PaneNotFound(pane_id@)
                },
            },
            old(self)@.wf() ==> final(self)@.wf(),
    {
        let ghost before = self@;
        match self.pane_position(pane_id) {
            Some((s, p)) => {
                proof {
                    lemma_find_pane(before, pane_id@);
                    if before.wf() {
                        assert(before.sessions[s as int].wf());
                        let pane = before.sessions[s as int].panes[p as int];
                        lemma_flags_keep_distinct(pane, client_id, sized(size));
                        lemma_with_pane_keeps_wf(
                            before,
                            s as int,
                            p as int,
                            pane.with_flags(client_id, sized(size)).fitted(),
                        );
                    }
                }
                Ok(self.pane_slot(s, p).resize_client(pane_id, client_id, size))
            },
            None => Err(pane_not_found(pane_id)),
        }
    }

    /// Request an exclusive input lock for a client.
    pub fn request_input_lock(&mut self, pane_id: &str, client_id: ClientId) -> (r: Result<
        InputLockOutcome,
        KmuxError,
    >)
        ensures
            match old(self)@.find_pane(pane_id@) {
                Some((s, p)) => {
                    let asked = old(self)@.sessions[s].panes[p].lock_requested(client_id);
                    &&& final(self)@ == old(self)@.with_pane_at(s, p, asked.0)
                    &&& r == Ok::<InputLockOutcome, KmuxError>(asked.1)
                },
                None => {
                    &&& final(self)@ == old(self)@
                    &&& r matches Err(e) && e@ == ErrorView::PaneNotFound(pane_id@)
                },
            },
            old(self)@.wf() ==> final(self)@.wf(),
    {
        let ghost before = self@;
        match self.pane_position(pane_id) {
            Some((s, p)) => {
                proof {
                    lemma_find_pane(before, pane_id@);
                    if before.wf() {
                        assert(before.sessions[s as int].wf());
                        lemma_with_pane_keeps_wf(
                            before,
                            s as int,
                            p as int,
                            before.sessions[s as int].panes[p as int].lock_requested(client_id).0,
                        );
                    }
                }
                Ok(self.pane_slot(s, p).request_input_lock(client_id))
            },
            None => Err(pane_not_found(pane_id)),
        }
    }

    /// Release the input lock, if this client holds it. Returns whether it did.
    pub fn release_input_lock(&mut self, pane_id: &str, client_id: ClientId) -> (r: Result<
        bool,
        KmuxError,
    >)
        ensures
            match old(self)@.find_pane(pane_id@) {
                Some((s, p)) => {
                    let given = old(self)@.sessions[s].panes[p].lock_released(client_id);
                    &&& final(self)@ == old(self)@.with_pane_at(s, p, given.0)
                    &&& r == Ok::<bool, KmuxError>(given.1)
                },
                None => {
                    &&& final(self)@ == old(self)@
                    &&& r matches Err(e) && e@ == ErrorView::PaneNotFound(pane_id@)
                },
            },
            old(self)@.wf() ==> final(self)@.wf(),
    {
        let ghost before = self@;
        match self.pane_position(pane_id) {
            Some((s, p)) => {
                proof {
                    lemma_find_pane(before, pane_id@);
                    if before.wf() {
                        assert(before.sessions[s as int].wf());
                        lemma_with_pane_keeps_wf(
                            before,
                            s as int,
                            p as int,
                            before.sessions[s as int].panes[p as int].lock_released(client_id).0,
                        );
                    }
                }
                Ok(self.pane_slot(s, p).release_input_lock(client_id))
            },
            None => Err(pane_not_found(pane_id)),
        }
    }

    /// Check a request to signal a pane's child process. `registered` is what the registry of
    /// child processes answered for the pane. Returns the signal to send.
    pub fn send_signal(&self, pane_id: &str, registered: Result<(), KmuxError>, signal: i32) -> (r:
        Result<i32, KmuxError>)
        ensures
            match registered {
                Err(e) => r matches Err(f) && f@ == pane_error(pane_id@, e@),
                Ok(_) => match r {
                    Ok(n) => n == signal && signal > 0,
                    Err(f) => f@ == ErrorView::Pty(Errno::EINVAL) && !is_fixed_signal(signal),
                },
            },
    {
        match registered {
            Err(e) => Err(as_pane_error(pane_id, e)),
            Ok(_) => checked_signal(signal_of(signal)),
        }
    }
}

/// The signal to send, where the number asked for is that of one.
pub fn checked_signal(signal: Option<i32>) -> (r: Result<i32, KmuxError>)
    ensures
        match signal {
            Some(n) => r == Ok::<i32, KmuxError>(n),
            None => r matches Err(e) && e@ == ErrorView::Pty(Errno::EINVAL),
        },
{
    match signal {
        Some(n) => Ok(n),
        None => Err(KmuxError::Pty(Errno::EINVAL)),
    }
}

/// Noting activity keeps the state well formed.
pub proof fn lemma_touch_keeps_wf(a: AppView, s: int, now_ms: u64)
    requires
        a.wf(),
        0 <= s < a.sessions.len(),
    ensures
        a.touched(s, now_ms).wf(),
{
    let t = SessionView { last_active_ms: now_ms, ..a.sessions[s] };
    assert(a.sessions[s].wf());
    assert forall|i: int, p: u32| 0 <= i < t.tabs.len() && #[trigger] t.tabs[i].has(
        p,
    ) implies t.has_pane(p) by {
        assert(a.sessions[s].has_pane(p));
    }
    lemma_with_session_keeps_wf(a, s, t);
}

} // verus!
