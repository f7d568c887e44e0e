use p2p_signal::connection::{
    CloseTarget, ConnectionError, Negotiation, PeerState, Phase, SdpKind, Step,
};

fn run(n: &mut Negotiation, step: Step) -> Result<(), ConnectionError> {
    n.check(step)?;
    n.complete(step, Ok(()))
}

#[test]
fn offer_answer_round_trip() {
    let mut a = Negotiation::new();
    let mut b = Negotiation::new();
    assert_eq!(a.phase(), Phase::Created);
    run(&mut a, Step::CreateOffer).unwrap();
    assert_eq!(a.phase(), Phase::OfferSent);
    let offer = a.local_kind().unwrap();
    assert_eq!(offer, SdpKind::Offer);
    run(&mut b, Step::CreateAnswer(offer)).unwrap();
    assert_eq!(b.local_kind(), Some(SdpKind::Answer));
    assert_eq!(b.phase(), Phase::AnswerSent);
    run(&mut a, Step::ApplyRemoteAnswer).unwrap();
    assert_eq!(a.phase(), Phase::Negotiating);
}

#[test]
fn remote_candidates_wait_for_the_answer() {
    let mut a = Negotiation::new();
    assert_eq!(a.check(Step::AddRemoteCandidates), Err(ConnectionError::NotReady));
    run(&mut a, Step::CreateOffer).unwrap();
    assert_eq!(a.check(Step::AddRemoteCandidates), Err(ConnectionError::NotReady));
    run(&mut a, Step::ApplyRemoteAnswer).unwrap();
    assert_eq!(run(&mut a, Step::AddRemoteCandidates), Ok(()));
    let mut b = Negotiation::new();
    run(&mut b, Step::CreateAnswer(SdpKind::Offer)).unwrap();
    assert_eq!(b.check(Step::AddRemoteCandidates), Ok(()));
}

#[test]
fn answer_needs_an_offer() {
    let b = Negotiation::new();
    assert_eq!(
        b.check(Step::CreateAnswer(SdpKind::Answer)),
        Err(ConnectionError::InvalidRemoteDescription)
    );
    assert_eq!(b.check(Step::ApplyRemoteAnswer), Err(ConnectionError::NotReady));
}

#[test]
fn engine_failure_changes_nothing() {
    let mut a = Negotiation::new();
    assert_eq!(
        a.complete(Step::CreateOffer, Err("no ice agent".to_string())),
        Err(ConnectionError::Engine("no ice agent".to_string()))
    );
    assert_eq!(a.phase(), Phase::Created);
    assert_eq!(a.local_kind(), None);
}

#[test]
fn candidates_and_state_reports() {
    let mut a = Negotiation::new();
    assert!(a.pending_candidates().is_empty());
    a.on_local_candidate("candidate:1".to_string());
    a.on_local_candidate("candidate:2".to_string());
    assert_eq!(a.pending_candidates(), vec!["candidate:1".to_string(), "candidate:2".to_string()]);
    assert!(!a.is_connected());
    a.on_state_change(PeerState::Connected);
    assert!(a.is_connected());
    a.on_state_change(PeerState::Connecting);
    assert!(!a.is_connected());
}

#[test]
fn close_order_and_closed_state() {
    let mut a = Negotiation::new();
    run(&mut a, Step::CreateOffer).unwrap();
    assert_eq!(a.close(), vec![CloseTarget::DataChannel, CloseTarget::Engine]);
    assert_eq!(a.phase(), Phase::Closed);
    assert_eq!(a.check(Step::CreateOffer), Err(ConnectionError::Closed));
}
