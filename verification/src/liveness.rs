//! Deadlines of one connection: it must authenticate in time, then answer the daemon's pings.
//! Times are monotonic, in milliseconds.

use crate::connection::since;
use vstd::prelude::*;

verus! {

/// How often an authenticated client is pinged.
pub const PING_INTERVAL_MS: u64 = 5_000;

/// How long a connection may take to authenticate.
pub const AUTH_DEADLINE_MS: u64 = 30_000;

/// How long after a ping any frame at all must have come in.
pub const PONG_DEADLINE_MS: u64 = 30_000;

/// How often the deadlines are checked.
pub const WATCHDOG_TICK_MS: u64 = 1_000;

/// How long writing one frame may take.
pub const FRAME_WRITE_TIMEOUT_MS: u64 = 30_000;

/// Why the daemon closes a connection.
#[derive(Clone, Copy, Debug, PartialEq, Eq, Structural)]
pub enum CloseReason {
    AuthDeadline,
    PongDeadline,
    /// A write did not finish in time: the peer is not reading.
    WriteTimeout,
    WriteFailed,
}

/// Whether a connection may stay open.
#[derive(Clone, Copy, Debug, PartialEq, Eq, Structural)]
pub enum Verdict {
    Keep,
    Close(CloseReason),
}

/// How one write ended.
#[derive(Clone, Copy, Debug, PartialEq, Eq, Structural)]
pub enum WriteEnd {
    Done,
    Failed,
    TimedOut,
}

/// The time from `b` to `a`, or zero.
fn elapsed(a: u64, b: u64) -> (r: u64)
    ensures
        r == since(a, b),
{
    if a >= b {
        a - b
    } else {
        0
    }
}

pub open spec fn auth_says(connected_at: u64, authenticated: bool, now: u64, deadline: u64)
    -> Verdict {
    if authenticated || since(now, connected_at) <= deadline {
        Verdict::Keep
    } else {
        Verdict::Close(CloseReason::AuthDeadline)
    }
}

/// Keep a connection that authenticated, or that connected no more than `deadline` ago.
pub fn auth_verdict(connected_at: u64, authenticated: bool, now: u64, deadline: u64) -> (r: Verdict)
    ensures
        r == auth_says(connected_at, authenticated, now, deadline),
{
    if authenticated || elapsed(now, connected_at) <= deadline {
        Verdict::Keep
    } else {
        Verdict::Close(CloseReason::AuthDeadline)
    }
}

pub open spec fn pong_says(unanswered_since: Option<u64>, now: u64, deadline: u64) -> Verdict {
    match unanswered_since {
        Some(sent) => if since(now, sent) > deadline {
            Verdict::Close(CloseReason::PongDeadline)
        } else {
            Verdict::Keep
        },
        None => Verdict::Keep,
    }
}

/// Keep a connection with no unanswered ping, or whose oldest unanswered ping went out no more
/// than `deadline` ago. Any frame answers a ping.
pub fn pong_verdict(unanswered_since: Option<u64>, now: u64, deadline: u64) -> (r: Verdict)
    ensures
        r == pong_says(unanswered_since, now, deadline),
{
    match unanswered_since {
        Some(sent) => if elapsed(now, sent) > deadline {
            Verdict::Close(CloseReason::PongDeadline)
        } else {
            Verdict::Keep
        },
        None => Verdict::Keep,
    }
}

/// The times that the deadlines are measured from.
#[derive(Clone, Copy, Debug, PartialEq, Eq, Structural)]
pub struct Liveness {
    pub connected_at: u64,
    pub authenticated: bool,
    /// When the oldest ping since the last frame went out.
    pub unanswered_since: Option<u64>,
}

impl Liveness {
    pub fn new(connected_at: u64) -> (r: Self)
        ensures
            r == (Liveness { connected_at, authenticated: false, unanswered_since: None }),
    {
        Liveness { connected_at, authenticated: false, unanswered_since: None }
    }

    /// A frame came in: every ping so far is answered.
    pub fn on_inbound(&mut self)
        ensures
            *final(self) == (Liveness { unanswered_since: None, ..*old(self) }),
    {
        self.unanswered_since = None;
    }

    /// The connection authenticated: its deadline no longer applies.
    pub fn on_authenticated(&mut self)
        ensures
            *final(self) == (Liveness { authenticated: true, ..*old(self) }),
    {
        self.authenticated = true;
    }

    pub open spec fn pinged(self, now: u64) -> Liveness {
        Liveness {
            unanswered_since: match self.unanswered_since {
                Some(t) => Some(t),
                None => Some(now),
            },
            ..self
        }
    }

    /// A ping went out. Only the oldest unanswered one counts.
    pub fn on_ping_sent(&mut self, now: u64)
        ensures
            *final(self) == old(self).pinged(now),
    {
        if self.unanswered_since.is_none() {
            self.unanswered_since = Some(now);
        }
    }

    pub open spec fn judged(self, now: u64) -> Verdict {
        match auth_says(self.connected_at, self.authenticated, now, AUTH_DEADLINE_MS) {
            Verdict::Keep => pong_says(self.unanswered_since, now, PONG_DEADLINE_MS),
            close => close,
        }
    }

    /// Whether the connection may stay open.
    pub fn verdict(&self, now: u64) -> (r: Verdict)
        ensures
            r == self.judged(now),
    {
        match auth_verdict(self.connected_at, self.authenticated, now, AUTH_DEADLINE_MS) {
            Verdict::Keep => pong_verdict(self.unanswered_since, now, PONG_DEADLINE_MS),
            close => close,
        }
    }
}

/// Why to close a connection after a write, if at all.
pub fn write_verdict(end: WriteEnd) -> (r: Result<(), CloseReason>)
    ensures
        r == match end {
            WriteEnd::Done => Ok::<(), CloseReason>(()),
            WriteEnd::Failed => Err(CloseReason::WriteFailed),
            WriteEnd::TimedOut => Err(CloseReason::WriteTimeout),
        },
{
    match end {
        WriteEnd::Done => Ok(()),
        WriteEnd::Failed => Err(CloseReason::WriteFailed),
        WriteEnd::TimedOut => Err(CloseReason::WriteTimeout),
    }
}

/// A later ping does not push the deadline back: while a ping is unanswered, further ones change
/// nothing.
pub proof fn law_later_pings_do_not_extend(l: Liveness, first: u64, second: u64)
    ensures
        l.pinged(first).pinged(second) == l.pinged(first),
{
}

/// A connection that was judged too old is judged so at every later time, until a frame comes in
/// or it authenticates.
pub proof fn law_missed_deadline_stays_missed(l: Liveness, now: u64, later: u64)
    requires
        now <= later,
        l.judged(now) is Close,
    ensures
        l.judged(later) is Close,
{
}

/// A connection that authenticated and has no unanswered ping is kept.
pub proof fn law_answering_client_is_kept(l: Liveness, now: u64)
    requires
        l.authenticated,
        l.unanswered_since is None,
    ensures
        l.judged(now) is Keep,
{
}

/// When a connection is closed: one that is not authenticated, once more than thirty seconds have
/// passed since it was made; and one that has left a ping unanswered for more than thirty seconds.
/// Otherwise it is kept.
pub proof fn law_when_a_connection_is_closed(l: Liveness, now: u64)
    ensures
        !l.authenticated && now > l.connected_at + 30_000 ==> l.judged(now) == Verdict::Close(
            CloseReason::AuthDeadline,
        ),
        (l.authenticated || now <= l.connected_at + 30_000) ==> match l.unanswered_since {
            Some(t) => if now > t + 30_000 {
                l.judged(now) == Verdict::Close(CloseReason::PongDeadline)
            } else {
                l.judged(now) is Keep
            },
            None => l.judged(now) is Keep,
        },
{
}

/// A deadline is missed once more time has passed than it gives, and not before.
pub proof fn law_deadlines_are_kept_to(from: u64, now: u64, deadline: u64)
    ensures
        auth_says(from, true, now, deadline) is Keep,
        now <= from + deadline ==> auth_says(from, false, now, deadline) is Keep,
        now > from + deadline ==> auth_says(from, false, now, deadline) == Verdict::Close(
            CloseReason::AuthDeadline,
        ),
        pong_says(None, now, deadline) is Keep,
        now <= from + deadline ==> pong_says(Some(from), now, deadline) is Keep,
        now > from + deadline ==> pong_says(Some(from), now, deadline) == Verdict::Close(
            CloseReason::PongDeadline,
        ),
{
}

/// A ping starts the wait for an answer where none is awaited, and changes nothing else.
pub proof fn law_ping_starts_the_wait(l: Liveness, now: u64)
    ensures
        l.unanswered_since is None ==> l.pinged(now).unanswered_since == Some(now),
        l.unanswered_since is Some ==> l.pinged(now) == l,
        l.pinged(now).connected_at == l.connected_at,
        l.pinged(now).authenticated == l.authenticated,
{
}

} // verus!
