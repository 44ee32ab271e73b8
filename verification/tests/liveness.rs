use kmuxd::liveness::{
    auth_verdict, pong_verdict, write_verdict, CloseReason, Liveness, Verdict, WriteEnd,
    AUTH_DEADLINE_MS, PING_INTERVAL_MS, PONG_DEADLINE_MS,
};

#[test]
fn auth_verdict_closes_only_an_unauthenticated_connection_past_the_deadline() {
    let t0 = 5_000;
    let cases = [
        // (elapsed, authenticated, expected)
        (AUTH_DEADLINE_MS - 1, false, Verdict::Keep),
        (AUTH_DEADLINE_MS, false, Verdict::Keep),
        (AUTH_DEADLINE_MS + 1, false, Verdict::Close(CloseReason::AuthDeadline)),
        (AUTH_DEADLINE_MS + 1, true, Verdict::Keep),
    ];
    for (elapsed, authenticated, expected) in cases {
        assert_eq!(
            auth_verdict(t0, authenticated, t0 + elapsed, AUTH_DEADLINE_MS),
            expected,
            "elapsed {elapsed:?}, authenticated {authenticated}"
        );
    }
}

#[test]
fn pong_verdict_closes_only_past_the_deadline_of_an_unanswered_ping() {
    let t0 = 5_000;
    let cases = [
        // (unanswered ping sent at, elapsed, expected)
        (None, PONG_DEADLINE_MS * 10, Verdict::Keep),
        (Some(t0), PONG_DEADLINE_MS - 1, Verdict::Keep),
        (Some(t0), PONG_DEADLINE_MS, Verdict::Keep),
        (Some(t0), PONG_DEADLINE_MS + 1, Verdict::Close(CloseReason::PongDeadline)),
    ];
    for (sent, elapsed, expected) in cases {
        assert_eq!(
            pong_verdict(sent, t0 + elapsed, PONG_DEADLINE_MS),
            expected,
            "sent {sent:?}, elapsed {elapsed:?}"
        );
    }
}

#[test]
fn liveness_measures_from_the_oldest_unanswered_ping() {
    let t0 = 5_000;
    let mut live = Liveness::new(t0);
    live.on_authenticated();

    live.on_ping_sent(t0);
    live.on_ping_sent(t0 + PING_INTERVAL_MS);
    assert_eq!(
        live.verdict(t0 + PONG_DEADLINE_MS + 1),
        Verdict::Close(CloseReason::PongDeadline),
        "a later ping must not push the deadline back"
    );

    live.on_inbound();
    assert_eq!(live.verdict(t0 + PONG_DEADLINE_MS + 1), Verdict::Keep);
}

#[test]
fn a_clock_that_steps_back_closes_nothing() {
    let live = Liveness::new(5_000);
    assert_eq!(live.verdict(0), Verdict::Keep);
    assert_eq!(
        live.verdict(5_001 + AUTH_DEADLINE_MS),
        Verdict::Close(CloseReason::AuthDeadline)
    );
}

#[test]
fn a_write_ends_the_connection_unless_it_is_done() {
    assert_eq!(write_verdict(WriteEnd::Done), Ok(()));
    assert_eq!(write_verdict(WriteEnd::Failed), Err(CloseReason::WriteFailed));
    assert_eq!(write_verdict(WriteEnd::TimedOut), Err(CloseReason::WriteTimeout));
}
