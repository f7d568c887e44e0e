use p2p_signal::acceptor::{Acceptor, AttemptAction, AttemptOutcome, LoopStep};

#[test]
fn bounded_loop_delivers_exactly_the_maximum() {
    let mut acc = Acceptor::new(2);
    let mut delivered = 0;
    let mut started = 0;
    while acc.next_step(false) == LoopStep::StartAttempt {
        started += 1;
        assert!(acc.has_pending_connection());
        if acc.attempt_finished(AttemptOutcome::Completed) == AttemptAction::Deliver {
            delivered += 1;
        }
        assert!(started <= 10);
    }
    assert_eq!(delivered, 2);
    assert_eq!(acc.active_connections_count(), 2);
    assert!(acc.is_stopped());
    assert!(!acc.has_pending_connection());
}

#[test]
fn cancelled_attempt_is_closed_not_delivered() {
    let mut acc = Acceptor::new(2);
    let mut closed = 0;
    assert_eq!(acc.next_step(false), LoopStep::StartAttempt);
    assert_eq!(acc.attempt_finished(AttemptOutcome::Completed), AttemptAction::Deliver);
    assert_eq!(acc.next_step(false), LoopStep::StartAttempt);
    if acc.attempt_finished(AttemptOutcome::Cancelled) == AttemptAction::Close {
        closed += 1;
    }
    assert_eq!(closed, 1);
    assert_eq!(acc.active_connections_count(), 1);
    assert_eq!(acc.next_step(false), LoopStep::Stop);
}

#[test]
fn cancellation_at_the_top_stops() {
    let mut acc = Acceptor::unbounded();
    assert_eq!(acc.next_step(true), LoopStep::Stop);
    assert!(acc.is_stopped());
    assert_eq!(acc.next_step(false), LoopStep::Stop);
}

#[test]
fn failure_is_reported_and_stops() {
    let mut acc = Acceptor::unbounded();
    assert_eq!(acc.next_step(false), LoopStep::StartAttempt);
    assert_eq!(
        acc.attempt_finished(AttemptOutcome::Failed("relay unreachable".to_string())),
        AttemptAction::CloseAndReport("relay unreachable".to_string())
    );
    assert_eq!(acc.next_step(false), LoopStep::Stop);
}

#[test]
fn shutdown_closes_the_running_attempt() {
    let mut acc = Acceptor::new(3);
    assert_eq!(acc.next_step(false), LoopStep::StartAttempt);
    assert!(acc.shutdown());
    assert!(!acc.has_pending_connection());
    assert!(acc.is_stopped());
    assert!(!acc.shutdown());
}

#[test]
fn zero_maximum_starts_nothing() {
    let mut acc = Acceptor::new(0);
    assert_eq!(acc.next_step(false), LoopStep::Stop);
    assert_eq!(acc.active_connections_count(), 0);
}
