//! The negotiation state of one peer connection.
//!
//! The peer-connection engine does the work (offers, answers, candidates); this state
//! machine decides which engine steps are allowed, records what each completed step
//! changed, and keeps the candidates and the connection state that the engine reports.
use vstd::prelude::*;

use crate::text::{copy_texts, texts};

verus! {

/// The type of a session description.
#[derive(Debug, Clone, Copy, PartialEq, Eq, Structural)]
pub enum SdpKind {
    Unspecified,
    Offer,
    Pranswer,
    Answer,
    Rollback,
}

/// A connection state reported by the engine.
#[derive(Debug, Clone, Copy, PartialEq, Eq, Structural)]
pub enum PeerState {
    Unspecified,
    New,
    Connecting,
    Connected,
    Disconnected,
    Failed,
    Closed,
}

/// Where the offer/answer exchange stands.
#[derive(Debug, Clone, Copy, PartialEq, Eq, Structural)]
pub enum Phase {
    /// Engine and data channel exist; no description exchanged.
    Created,
    /// A local offer is set.
    OfferSent,
    /// A remote offer and a local answer are set.
    AnswerSent,
    /// The remote answer to our offer is set.
    Negotiating,
    /// The data channel and the engine were closed.
    Closed,
}

/// A negotiation step that the engine carries out.
#[derive(Debug, Clone, Copy, PartialEq, Eq, Structural)]
pub enum Step {
    /// Create an offer and set it as the local description.
    CreateOffer,
    /// Set a remote description of the given type, then create and set an answer.
    CreateAnswer(SdpKind),
    /// Set the remote answer to our offer.
    ApplyRemoteAnswer,
    /// Hand remote candidates to the engine.
    AddRemoteCandidates,
}

/// What the connection closes on teardown, in order.
#[derive(Debug, Clone, Copy, PartialEq, Eq, Structural)]
pub enum CloseTarget {
    DataChannel,
    Engine,
}

/// Why a negotiation step did not succeed.
#[derive(Debug, Clone, PartialEq, Eq)]
pub enum ConnectionError {
    /// The engine failed; its message.
    Engine(String),
    /// A description handed to `CreateAnswer` is not an offer.
    InvalidRemoteDescription,
    /// A step came before the step it needs.
    NotReady,
    /// The connection was closed.
    Closed,
}

/// What a connection's negotiation state holds.
pub struct NegotiationView {
    pub phase: Phase,
    /// The type of the local description, once one is set.
    pub local_kind: Option<SdpKind>,
    /// The local candidates that the engine discovered, in order.
    pub candidates: Seq<Seq<char>>,
    /// The last connection state report was `Connected`.
    pub connected: bool,
}

/// Whether a remote description is set, so that remote candidates can be applied.
pub open spec fn remote_set(phase: Phase) -> bool {
    phase == Phase::AnswerSent || phase == Phase::Negotiating
}

/// Whether `step` may be started in `phase`, or the error that refuses it.
pub open spec fn gate(phase: Phase, step: Step) -> Result<(), ConnectionError> {
    if phase == Phase::Closed {
        Err(ConnectionError::Closed)
    } else {
        match step {
            Step::CreateOffer => Ok(()),
            Step::CreateAnswer(kind) => if kind == SdpKind::Offer {
                Ok(())
            } else {
                Err(ConnectionError::InvalidRemoteDescription)
            },
            Step::ApplyRemoteAnswer => if phase == Phase::OfferSent {
                Ok(())
            } else {
                Err(ConnectionError::NotReady)
            },
            Step::AddRemoteCandidates => if remote_set(phase) {
                Ok(())
            } else {
                Err(ConnectionError::NotReady)
            },
        }
    }
}

/// The state after the engine carried out `step`.
pub open spec fn advanced(v: NegotiationView, step: Step) -> NegotiationView {
    match step {
        Step::CreateOffer => NegotiationView {
            phase: Phase::OfferSent,
            local_kind: Some(SdpKind::Offer),
            ..v
        },
        Step::CreateAnswer(_) => NegotiationView {
            phase: Phase::AnswerSent,
            local_kind: Some(SdpKind::Answer),
            ..v
        },
        Step::ApplyRemoteAnswer => NegotiationView { phase: Phase::Negotiating, ..v },
        Step::AddRemoteCandidates => v,
    }
}

/// A fresh connection's state.
pub open spec fn created() -> NegotiationView {
    NegotiationView {
        phase: Phase::Created,
        local_kind: None,
        candidates: Seq::empty(),
        connected: false,
    }
}

/// The negotiation state of one connection.
pub struct Negotiation {
    phase: Phase,
    local_kind: Option<SdpKind>,
    candidates: Vec<String>,
    connected: bool,
}

impl View for Negotiation {
    type V = NegotiationView;

    closed spec fn view(&self) -> NegotiationView {
        NegotiationView {
            phase: self.phase,
            local_kind: self.local_kind,
            candidates: texts(self.candidates@),
            connected: self.connected,
        }
    }
}

impl Negotiation {
    /// The state of a connection whose engine and data channel were just made.
    pub fn new() -> (r: Negotiation)
        ensures
            r@ == created(),
    {
        let r = Negotiation {
            phase: Phase::Created,
            local_kind: None,
            candidates: Vec::new(),
            connected: false,
        };
        assert(r@.candidates =~= Seq::<Seq<char>>::empty());
        r
    }

    /// Where the exchange stands.
    pub fn phase(&self) -> (r: Phase)
        ensures
            r == self@.phase,
    {
        self.phase
    }

    /// The type of the local description, once one is set.
    pub fn local_kind(&self) -> (r: Option<SdpKind>)
        ensures
            r == self@.local_kind,
    {
        self.local_kind
    }

    /// Whether `step` may be started now; the error that refuses it otherwise.
    pub fn check(&self, step: Step) -> (r: Result<(), ConnectionError>)
        ensures
            r == gate(self@.phase, step),
    {
        if self.phase == Phase::Closed {
            return Err(ConnectionError::Closed);
        }
        match step {
            Step::CreateOffer => Ok(()),
            Step::CreateAnswer(kind) => {
                if kind == SdpKind::Offer {
                    Ok(())
                } else {
                    Err(ConnectionError::InvalidRemoteDescription)
                }
            },
            Step::ApplyRemoteAnswer => {
                if self.phase == Phase::OfferSent {
                    Ok(())
                } else {
                    Err(ConnectionError::NotReady)
                }
            },
            Step::AddRemoteCandidates => {
                if self.phase == Phase::AnswerSent || self.phase == Phase::Negotiating {
                    Ok(())
                } else {
                    Err(ConnectionError::NotReady)
                }
            },
        }
    }

    /// Records how the engine's work on an allowed `step` ended: on success the state
    /// advances; an engine failure is handed back as `Engine` and changes nothing.
    pub fn complete(&mut self, step: Step, outcome: Result<(), String>) -> (r: Result<(), ConnectionError>)
        requires
            gate(old(self)@.phase, step) is Ok,
        ensures
            match outcome {
                Ok(()) => r == Ok::<(), ConnectionError>(()) && final(self)@ == advanced(old(self)@, step),
                Err(msg) => r == Err::<(), ConnectionError>(ConnectionError::Engine(msg))
                    && final(self)@ == old(self)@,
            },
    {
        match outcome {
            Ok(()) => {
                match step {
                    Step::CreateOffer => {
                        self.phase = Phase::OfferSent;
                        self.local_kind = Some(SdpKind::Offer);
                    },
                    Step::CreateAnswer(_) => {
                        self.phase = Phase::AnswerSent;
                        self.local_kind = Some(SdpKind::Answer);
                    },
                    Step::ApplyRemoteAnswer => {
                        self.phase = Phase::Negotiating;
                    },
                    Step::AddRemoteCandidates => {},
                }
                Ok(())
            },
            Err(msg) => Err(ConnectionError::Engine(msg)),
        }
    }

    /// Records a local candidate that the engine discovered.
    pub fn on_local_candidate(&mut self, candidate: String)
        ensures
            final(self)@ == (NegotiationView {
                candidates: old(self)@.candidates.push(candidate@),
                ..old(self)@
            }),
    {
        self.candidates.push(candidate);
        assert(texts(self.candidates@) =~= texts(old(self).candidates@).push(candidate@));
    }

    /// Records a connection state that the engine reported.
    pub fn on_state_change(&mut self, state: PeerState)
        ensures
            final(self)@ == (NegotiationView { connected: state == PeerState::Connected, ..old(self)@ }),
    {
        self.connected = state == PeerState::Connected;
    }

    /// Whether the last reported connection state was `Connected`.
    pub fn is_connected(&self) -> (r: bool)
        ensures
            r == self@.connected,
    {
        self.connected
    }

    /// Every local candidate discovered so far, in order.
    pub fn pending_candidates(&self) -> (r: Vec<String>)
        ensures
            texts(r@) == self@.candidates,
    {
        copy_texts(&self.candidates)
    }

    /// Tears the connection down: the state becomes `Closed`, and what to close is
    /// returned in order, the data channel first, whatever the state was.
    pub fn close(&mut self) -> (r: Vec<CloseTarget>)
        ensures
            r@ == seq![CloseTarget::DataChannel, CloseTarget::Engine],
            final(self)@ == (NegotiationView { phase: Phase::Closed, ..old(self)@ }),
    {
        self.phase = Phase::Closed;
        let r = vec![CloseTarget::DataChannel, CloseTarget::Engine];
        assert(r@ =~= seq![CloseTarget::DataChannel, CloseTarget::Engine]);
        r
    }
}

/// An offer made by one connection, answered by a fresh second one, gives an answer;
/// setting that answer on the first connection brings it to `Negotiating`.
pub proof fn law_offer_answer_round_trip(a: NegotiationView, b: NegotiationView)
    requires
        a.phase == Phase::Created,
        b.phase == Phase::Created,
    ensures
        gate(a.phase, Step::CreateOffer) is Ok,
        advanced(a, Step::CreateOffer).local_kind == Some(SdpKind::Offer),
        gate(b.phase, Step::CreateAnswer(SdpKind::Offer)) is Ok,
        advanced(b, Step::CreateAnswer(SdpKind::Offer)).local_kind == Some(SdpKind::Answer),
        gate(advanced(a, Step::CreateOffer).phase, Step::ApplyRemoteAnswer) is Ok,
        advanced(advanced(a, Step::CreateOffer), Step::ApplyRemoteAnswer).phase == Phase::Negotiating,
{
}

/// Remote candidates are refused with `NotReady` before the remote answer is set, and
/// accepted after.
pub proof fn law_candidates_wait_for_answer(a: NegotiationView)
    requires
        a.phase == Phase::Created || a.phase == Phase::OfferSent,
    ensures
        gate(a.phase, Step::AddRemoteCandidates) == Err::<(), ConnectionError>(ConnectionError::NotReady),
        a.phase == Phase::OfferSent ==> gate(
            advanced(a, Step::ApplyRemoteAnswer).phase,
            Step::AddRemoteCandidates,
        ) is Ok,
{
}

} // verus!
