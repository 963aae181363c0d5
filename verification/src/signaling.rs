//! The decisions of one signalling connection, as a state machine.
//!
//! A client's WebSocket goes through a fixed order, and the order is the
//! security model:
//!
//! 1. Wait for `hello` and check its token. Nothing is built for a client
//!    that cannot authenticate, anything other than `hello` first closes
//!    the connection, and each such refusal is counted so probing shows.
//!    A client that authenticates while the host already serves its ceiling
//!    of clients is refused too.
//! 2. Build the peer connection, count the client, and register the ICE and
//!    connection-state callbacks before the offer goes out. Candidates that
//!    gather before the offer wait for it.
//! 3. Send the offer, the stream configuration, and the waiting candidates.
//! 4. Relay answers and candidates until either end goes away, then clean up
//!    exactly once. A client whose connection comes up gets a keyframe.
//!
//! A text frame longer than the configured cap ends the connection in any
//! phase.
//!
//! The caller performs each [`SignalAction`] (socket writes, WebRTC calls)
//! and feeds back what happened as a [`SignalEvent`].

use crate::auth::token_matches;
use crate::protocol::{HostMsg, IceCandidate};
use vstd::prelude::*;

verus! {

/// A client message, as read from the socket.
#[derive(Debug, Clone, PartialEq, Eq)]
pub enum ClientText {
    /// Must arrive first. The host closes the socket if the token does not
    /// match.
    Hello { token: Option<String> },
    /// The client's answer to the offer.
    Answer(String),
    /// A remote ICE candidate.
    Ice(IceCandidate),
    /// An input event; input travels on the data channel, so here it is
    /// ignored.
    Input,
    /// Text that is not a message of the protocol.
    Unparsable,
}

/// What happened since the last step.
#[derive(Debug, Clone, PartialEq, Eq)]
pub enum SignalEvent {
    /// A text frame arrived: the message read from it, the frame's length
    /// in bytes, and how many clients the host counts as it arrives.
    Text { msg: ClientText, len: usize, clients: u64 },
    /// A frame that is not text (binary, ping, pong) arrived.
    OtherFrame,
    /// The socket closed, ended, or failed.
    Ended,
    /// The peer connection was built.
    SessionBuilt,
    /// Building the peer connection failed.
    SessionFailed(String),
    /// The offer was created.
    OfferCreated(String),
    /// Creating the offer failed.
    OfferFailed(String),
    /// A local ICE candidate was gathered.
    LocalIce(IceCandidate),
    /// The peer connection reached the connected state.
    PeerConnected,
    /// Writing to the socket failed.
    SendFailed,
    /// The client's answer was rejected.
    AnswerRejected(String),
}

/// Why the host refuses or ends a session.
#[derive(Debug, Clone, PartialEq, Eq)]
pub enum SignalError {
    /// The first message was not `hello`.
    ExpectedHello,
    /// The `hello` carried a wrong or missing token.
    BadToken,
    /// The host already serves as many clients as it allows.
    TooManyClients,
    /// A signalling message was longer than the cap.
    MessageTooLarge,
    /// A WebRTC step failed, with its description.
    Failed(String),
}

/// The text of a [`SignalError`].
pub open spec fn error_text(e: SignalError) -> Seq<char> {
    match e {
        SignalError::ExpectedHello => "expected hello first"@,
        SignalError::BadToken => "bad or missing token"@,
        SignalError::TooManyClients => "too many clients"@,
        SignalError::MessageTooLarge => "message too large"@,
        SignalError::Failed(m) => m@,
    }
}

impl SignalError {
    /// The `error` message that tells the client why.
    pub fn to_host_msg(&self) -> (m: HostMsg)
        ensures
            m matches HostMsg::Error(t) && t@ == error_text(*self),
    {
        match self {
            SignalError::ExpectedHello => HostMsg::Error(String::from_str("expected hello first")),
            SignalError::BadToken => HostMsg::Error(String::from_str("bad or missing token")),
            SignalError::TooManyClients => HostMsg::Error(String::from_str("too many clients")),
            SignalError::MessageTooLarge => HostMsg::Error(String::from_str("message too large")),
            SignalError::Failed(m) => HostMsg::Error(m.clone()),
        }
    }
}

/// Something the caller has to do.
#[derive(Debug, Clone, PartialEq, Eq)]
pub enum SignalAction {
    /// Send an `error` message to the client.
    SendError(SignalError),
    /// Add one to the count of rejected handshakes.
    CountRejected,
    /// Build the peer connection.
    BuildSession,
    /// Record the session and count the client as connected.
    CountClient,
    /// Register the ICE-candidate and connection-state callbacks.
    WatchConnection,
    /// Create the offer.
    CreateOffer,
    /// Send the offer.
    SendOffer(String),
    /// Send the stream configuration.
    SendConfig { w: u32, h: u32, fps: u32 },
    /// Send a local ICE candidate to the client.
    ForwardIce(IceCandidate),
    /// Apply the client's answer.
    AcceptAnswer(String),
    /// Add the client's ICE candidate.
    AddIce(IceCandidate),
    /// Ask the encoder for a keyframe, since a newly connected client has
    /// no reference frame.
    RequestKeyframe,
    /// Stop the media task, close the peer connection, uncount the client
    /// and forget the session.
    Cleanup,
}

/// Where a connection is.
#[derive(Debug, Clone, Copy, PartialEq, Eq, Structural)]
pub enum SignalPhase {
    /// Nothing received yet.
    AwaitingHello,
    /// Authenticated; the peer connection is being built.
    Building,
    /// The session exists and the offer is being created.
    Offering,
    /// Offer sent; relaying until either end goes away.
    Running,
    /// Finished. Nothing more happens.
    Closed,
}

/// What a connection needs to know of the host.
#[derive(Debug, Clone, PartialEq, Eq)]
pub struct SignalConfig {
    /// The token a client must present; `None` leaves the endpoint open,
    /// which only the diagnostic harnesses do.
    pub auth_token: Option<String>,
    pub width: u32,
    pub height: u32,
    pub fps: u32,
    /// Ceiling on simultaneous clients.
    pub max_clients: u64,
    /// Cap on the length of a signalling text frame, in bytes.
    pub max_message_len: usize,
}

/// Whether a `hello` token is acceptable under the configured token.
pub open spec fn token_ok(expected: Option<String>, token: Option<String>) -> bool {
    match expected {
        None => true,
        Some(t) => match token {
            Some(p) => p@ == t@,
            None => false,
        },
    }
}

/// Whether a text frame is longer than the cap.
pub open spec fn oversized(cfg: SignalConfig, ev: SignalEvent) -> bool {
    ev matches SignalEvent::Text { len, .. } && len > cfg.max_message_len
}

/// Whether an event, arriving first, is a handshake that fails: anything
/// but a `hello` within the size cap that carries an acceptable token.
pub open spec fn handshake_rejected(cfg: SignalConfig, ev: SignalEvent) -> bool {
    match ev {
        SignalEvent::Text { msg: ClientText::Hello { token }, len, .. } => !(len <= cfg.max_message_len
            && token_ok(cfg.auth_token, token)),
        _ => true,
    }
}

/// Whether an event, arriving first, is an authenticated `hello` that finds
/// the host already at its ceiling of clients.
pub open spec fn over_ceiling(cfg: SignalConfig, ev: SignalEvent) -> bool {
    match ev {
        SignalEvent::Text { clients, .. } => !handshake_rejected(cfg, ev) && clients >= cfg.max_clients,
        _ => false,
    }
}

/// The phase after an event.
pub open spec fn next_phase(cfg: SignalConfig, phase: SignalPhase, ev: SignalEvent) -> SignalPhase {
    match phase {
        SignalPhase::AwaitingHello => if handshake_rejected(cfg, ev) || over_ceiling(cfg, ev) {
            SignalPhase::Closed
        } else {
            SignalPhase::Building
        },
        SignalPhase::Building => if oversized(cfg, ev) {
            SignalPhase::Closed
        } else {
            match ev {
                SignalEvent::SessionBuilt => SignalPhase::Offering,
                SignalEvent::SessionFailed(_) => SignalPhase::Closed,
                _ => SignalPhase::Building,
            }
        },
        SignalPhase::Offering => if oversized(cfg, ev) {
            SignalPhase::Closed
        } else {
            match ev {
                SignalEvent::OfferCreated(_) => SignalPhase::Running,
                SignalEvent::OfferFailed(_) => SignalPhase::Closed,
                _ => SignalPhase::Offering,
            }
        },
        SignalPhase::Running => if oversized(cfg, ev) {
            SignalPhase::Closed
        } else {
            match ev {
                SignalEvent::Ended => SignalPhase::Closed,
                SignalEvent::SendFailed => SignalPhase::Closed,
                SignalEvent::AnswerRejected(_) => SignalPhase::Closed,
                _ => SignalPhase::Running,
            }
        },
        SignalPhase::Closed => SignalPhase::Closed,
    }
}

/// The local candidates waiting for the offer after an event: while the
/// offer has not gone out, a gathered candidate joins them; once the
/// connection moves on they are gone (sent with the offer, or dropped with
/// the connection).
pub open spec fn next_pending(
    cfg: SignalConfig,
    phase: SignalPhase,
    pending: Seq<IceCandidate>,
    ev: SignalEvent,
) -> Seq<IceCandidate> {
    let next = next_phase(cfg, phase, ev);
    if next == SignalPhase::Building || next == SignalPhase::Offering {
        match ev {
            SignalEvent::LocalIce(c) => pending.push(c),
            _ => pending,
        }
    } else {
        Seq::empty()
    }
}

/// `ForwardIce` for each candidate, in order.
pub open spec fn forwards(pending: Seq<IceCandidate>) -> Seq<SignalAction> {
    pending.map_values(|c: IceCandidate| SignalAction::ForwardIce(c))
}

/// What to do for an event.
pub open spec fn actions_for(
    cfg: SignalConfig,
    phase: SignalPhase,
    pending: Seq<IceCandidate>,
    ev: SignalEvent,
) -> Seq<SignalAction> {
    match phase {
        SignalPhase::AwaitingHello => if oversized(cfg, ev) {
            seq![SignalAction::SendError(SignalError::MessageTooLarge), SignalAction::CountRejected]
        } else {
            match ev {
                SignalEvent::Text { msg: ClientText::Hello { token }, .. } => if !token_ok(cfg.auth_token, token) {
                    seq![SignalAction::SendError(SignalError::BadToken), SignalAction::CountRejected]
                } else if over_ceiling(cfg, ev) {
                    seq![SignalAction::SendError(SignalError::TooManyClients)]
                } else {
                    seq![SignalAction::BuildSession]
                },
                _ => seq![SignalAction::SendError(SignalError::ExpectedHello), SignalAction::CountRejected],
            }
        },
        SignalPhase::Building => if oversized(cfg, ev) {
            seq![SignalAction::SendError(SignalError::MessageTooLarge)]
        } else {
            match ev {
                SignalEvent::SessionBuilt => seq![
                    SignalAction::CountClient,
                    SignalAction::WatchConnection,
                    SignalAction::CreateOffer,
                ],
                SignalEvent::SessionFailed(e) => seq![SignalAction::SendError(SignalError::Failed(e))],
                _ => Seq::empty(),
            }
        },
        SignalPhase::Offering => if oversized(cfg, ev) {
            seq![SignalAction::SendError(SignalError::MessageTooLarge), SignalAction::Cleanup]
        } else {
            match ev {
                SignalEvent::OfferCreated(sdp) => seq![
                    SignalAction::SendOffer(sdp),
                    SignalAction::SendConfig { w: cfg.width, h: cfg.height, fps: cfg.fps },
                ] + forwards(pending),
                SignalEvent::OfferFailed(e) => seq![SignalAction::SendError(SignalError::Failed(e))],
                _ => Seq::empty(),
            }
        },
        SignalPhase::Running => if oversized(cfg, ev) {
            seq![SignalAction::SendError(SignalError::MessageTooLarge), SignalAction::Cleanup]
        } else {
            match ev {
                SignalEvent::LocalIce(c) => seq![SignalAction::ForwardIce(c)],
                SignalEvent::Text { msg: ClientText::Answer(sdp), .. } => seq![SignalAction::AcceptAnswer(sdp)],
                SignalEvent::Text { msg: ClientText::Ice(c), .. } => seq![SignalAction::AddIce(c)],
                SignalEvent::PeerConnected => seq![SignalAction::RequestKeyframe],
                SignalEvent::AnswerRejected(e) => seq![
                    SignalAction::SendError(SignalError::Failed(e)),
                    SignalAction::Cleanup,
                ],
                SignalEvent::Ended => seq![SignalAction::Cleanup],
                SignalEvent::SendFailed => seq![SignalAction::Cleanup],
                _ => Seq::empty(),
            }
        },
        SignalPhase::Closed => Seq::empty(),
    }
}

/// One signalling connection.
pub struct Signalling {
    pub cfg: SignalConfig,
    pub phase: SignalPhase,
    /// Local candidates gathered before the offer went out.
    pub pending: Vec<IceCandidate>,
}

impl Signalling {
    /// A connection that has received nothing yet.
    pub fn new(cfg: SignalConfig) -> (s: Self)
        ensures
            s.cfg == cfg,
            s.phase == SignalPhase::AwaitingHello,
            s.pending@ == Seq::<IceCandidate>::empty(),
    {
        Signalling { cfg, phase: SignalPhase::AwaitingHello, pending: Vec::new() }
    }

    /// Whether the connection is finished.
    pub fn is_closed(&self) -> (r: bool)
        ensures
            r == (self.phase == SignalPhase::Closed),
    {
        match self.phase {
            SignalPhase::Closed => true,
            _ => false,
        }
    }

    /// The waiting candidates as `ForwardIce` actions after `acts`, leaving
    /// none waiting.
    fn flush_pending(&mut self, acts: &mut Vec<SignalAction>)
        ensures
            final(self).cfg == old(self).cfg,
            final(self).phase == old(self).phase,
            final(self).pending@ == Seq::<IceCandidate>::empty(),
            final(acts)@ == old(acts)@ + forwards(old(self).pending@),
    {
        let mut q: Vec<IceCandidate> = Vec::new();
        std::mem::swap(&mut q, &mut self.pending);
        let ghost all = q@;
        let ghost base = acts@;
        let mut k: usize = 0;
        assert(all.len() == q.len());
        while q.len() > 0
            invariant
                all.len() <= usize::MAX,
                k + q@.len() == all.len(),
                q@ == all.skip(k as int),
                acts@ == base + forwards(all.take(k as int)),
            decreases q@.len(),
        {
            let c = q.remove(0);
            proof {
                assert(c == all[k as int]);
                assert(forwards(all.take(k + 1)) =~= forwards(all.take(k as int)).push(SignalAction::ForwardIce(c)));
                assert(q@ =~= all.skip(k + 1));
            }
            acts.push(SignalAction::ForwardIce(c));
            k += 1;
        }
        proof {
            assert(all.take(k as int) =~= all);
        }
    }

    /// Takes one event, moves to the next phase, and returns what to do.
    pub fn step(&mut self, ev: SignalEvent) -> (acts: Vec<SignalAction>)
        ensures
            final(self).cfg == old(self).cfg,
            final(self).phase == next_phase(old(self).cfg, old(self).phase, ev),
            final(self).pending@ == next_pending(old(self).cfg, old(self).phase, old(self).pending@, ev),
            acts@ == actions_for(old(self).cfg, old(self).phase, old(self).pending@, ev),
    {
        let ghost ev0 = ev;
        let ghost pend0 = self.pending@;
        let too_big = match &ev {
            SignalEvent::Text { len, .. } => *len > self.cfg.max_message_len,
            _ => false,
        };
        match self.phase {
            SignalPhase::Closed => {
                self.pending = Vec::new();
                return Vec::new();
            },
            SignalPhase::AwaitingHello => {
                if too_big {
                    self.pending = Vec::new();
                    self.phase = SignalPhase::Closed;
                    return vec![SignalAction::SendError(SignalError::MessageTooLarge), SignalAction::CountRejected];
                }
                match ev {
                    SignalEvent::Text { msg: ClientText::Hello { token }, len, clients } => {
                        let ok = match &self.cfg.auth_token {
                            None => true,
                            Some(t) => {
                                let provided: Option<&str> = match &token {
                                    Some(p) => Some(p.as_str()),
                                    None => None,
                                };
                                token_matches(t.as_str(), provided)
                            },
                        };
                        if !ok {
                            self.pending = Vec::new();
                            self.phase = SignalPhase::Closed;
                            vec![SignalAction::SendError(SignalError::BadToken), SignalAction::CountRejected]
                        } else if clients >= self.cfg.max_clients {
                            self.pending = Vec::new();
                            self.phase = SignalPhase::Closed;
                            vec![SignalAction::SendError(SignalError::TooManyClients)]
                        } else {
                            self.phase = SignalPhase::Building;
                            vec![SignalAction::BuildSession]
                        }
                    },
                    _ => {
                        self.pending = Vec::new();
                        self.phase = SignalPhase::Closed;
                        vec![SignalAction::SendError(SignalError::ExpectedHello), SignalAction::CountRejected]
                    },
                }
            },
            SignalPhase::Building => {
                if too_big {
                    self.pending = Vec::new();
                    self.phase = SignalPhase::Closed;
                    return vec![SignalAction::SendError(SignalError::MessageTooLarge)];
                }
                match ev {
                    SignalEvent::SessionBuilt => {
                        self.phase = SignalPhase::Offering;
                        vec![
                            SignalAction::CountClient,
                            SignalAction::WatchConnection,
                            SignalAction::CreateOffer,
                        ]
                    },
                    SignalEvent::SessionFailed(e) => {
                        self.pending = Vec::new();
                        self.phase = SignalPhase::Closed;
                        vec![SignalAction::SendError(SignalError::Failed(e))]
                    },
                    SignalEvent::LocalIce(c) => {
                        self.pending.push(c);
                        Vec::new()
                    },
                    _ => Vec::new(),
                }
            },
            SignalPhase::Offering => {
                if too_big {
                    self.pending = Vec::new();
                    self.phase = SignalPhase::Closed;
                    return vec![SignalAction::SendError(SignalError::MessageTooLarge), SignalAction::Cleanup];
                }
                match ev {
                    SignalEvent::OfferCreated(sdp) => {
                        let mut acts = vec![
                            SignalAction::SendOffer(sdp),
                            SignalAction::SendConfig {
                                w: self.cfg.width,
                                h: self.cfg.height,
                                fps: self.cfg.fps,
                            },
                        ];
                        self.flush_pending(&mut acts);
                        self.phase = SignalPhase::Running;
                        acts
                    },
                    SignalEvent::OfferFailed(e) => {
                        self.pending = Vec::new();
                        self.phase = SignalPhase::Closed;
                        vec![SignalAction::SendError(SignalError::Failed(e))]
                    },
                    SignalEvent::LocalIce(c) => {
                        self.pending.push(c);
                        Vec::new()
                    },
                    _ => Vec::new(),
                }
            },
            SignalPhase::Running => {
                self.pending = Vec::new();
                if too_big {
                    self.phase = SignalPhase::Closed;
                    return vec![SignalAction::SendError(SignalError::MessageTooLarge), SignalAction::Cleanup];
                }
                match ev {
                    SignalEvent::LocalIce(c) => vec![SignalAction::ForwardIce(c)],
                    SignalEvent::Text { msg: ClientText::Answer(sdp), .. } => vec![SignalAction::AcceptAnswer(sdp)],
                    SignalEvent::Text { msg: ClientText::Ice(c), .. } => vec![SignalAction::AddIce(c)],
                    SignalEvent::PeerConnected => vec![SignalAction::RequestKeyframe],
                    SignalEvent::AnswerRejected(e) => {
                        self.phase = SignalPhase::Closed;
                        vec![SignalAction::SendError(SignalError::Failed(e)), SignalAction::Cleanup]
                    },
                    SignalEvent::Ended => {
                        self.phase = SignalPhase::Closed;
                        vec![SignalAction::Cleanup]
                    },
                    SignalEvent::SendFailed => {
                        self.phase = SignalPhase::Closed;
                        vec![SignalAction::Cleanup]
                    },
                    _ => Vec::new(),
                }
            },
        }
    }
}

/// The final phase and all actions of a connection that starts in `phase`,
/// with `pending` candidates waiting, and sees `evs` in order.
pub open spec fn run(
    cfg: SignalConfig,
    phase: SignalPhase,
    pending: Seq<IceCandidate>,
    evs: Seq<SignalEvent>,
) -> (SignalPhase, Seq<SignalAction>)
    decreases evs.len(),
{
    if evs.len() == 0 {
        (phase, Seq::empty())
    } else {
        let rest = run(
            cfg,
            next_phase(cfg, phase, evs[0]),
            next_pending(cfg, phase, pending, evs[0]),
            evs.drop_first(),
        );
        (rest.0, actions_for(cfg, phase, pending, evs[0]) + rest.1)
    }
}

/// How many actions of a list satisfy `p`.
pub open spec fn count_where(acts: Seq<SignalAction>, p: spec_fn(SignalAction) -> bool) -> nat
    decreases acts.len(),
{
    if acts.len() == 0 {
        0
    } else {
        (if p(acts[0]) { 1nat } else { 0nat }) + count_where(acts.drop_first(), p)
    }
}

/// `BuildSession`.
pub open spec fn is_build(a: SignalAction) -> bool {
    a is BuildSession
}

/// `CountRejected`.
pub open spec fn is_rejected(a: SignalAction) -> bool {
    a is CountRejected
}

/// `CountClient`.
pub open spec fn is_count(a: SignalAction) -> bool {
    a is CountClient
}

/// `Cleanup`.
pub open spec fn is_cleanup(a: SignalAction) -> bool {
    a is Cleanup
}

/// Whether a connection in `phase` has counted its client and not yet
/// uncounted it.
pub open spec fn owes_cleanup(phase: SignalPhase) -> nat {
    if phase == SignalPhase::Offering || phase == SignalPhase::Running {
        1
    } else {
        0
    }
}

/// Creating the offer failed after the client was counted; the connection
/// then closes without uncounting it.
pub open spec fn offer_failure(cfg: SignalConfig, phase: SignalPhase, ev: SignalEvent) -> bool {
    phase == SignalPhase::Offering && !oversized(cfg, ev) && ev is OfferFailed
}

proof fn lemma_count_add(a: Seq<SignalAction>, b: Seq<SignalAction>, p: spec_fn(SignalAction) -> bool)
    ensures
        count_where(a + b, p) == count_where(a, p) + count_where(b, p),
    decreases a.len(),
{
    if a.len() > 0 {
        assert((a + b).drop_first() =~= a.drop_first() + b);
        assert((a + b)[0] == a[0]);
        lemma_count_add(a.drop_first(), b, p);
    } else {
        assert(a + b =~= b);
    }
}

proof fn lemma_count_forwards(pending: Seq<IceCandidate>, p: spec_fn(SignalAction) -> bool)
    requires
        forall|c: IceCandidate| !(#[trigger] p(SignalAction::ForwardIce(c))),
    ensures
        count_where(forwards(pending), p) == 0,
    decreases pending.len(),
{
    if pending.len() > 0 {
        assert(forwards(pending).drop_first() =~= forwards(pending.drop_first()));
        assert(forwards(pending)[0] == SignalAction::ForwardIce(pending[0]));
        lemma_count_forwards(pending.drop_first(), p);
    }
}

/// What one step does to the counted quantities.
proof fn lemma_step_counts(cfg: SignalConfig, phase: SignalPhase, pending: Seq<IceCandidate>, ev: SignalEvent)
    ensures
        ({
            let acts = actions_for(cfg, phase, pending, ev);
            let next = next_phase(cfg, phase, ev);
            &&& count_where(acts, |a: SignalAction| is_build(a)) == (if phase == SignalPhase::AwaitingHello
                && next == SignalPhase::Building { 1nat } else { 0nat })
            &&& count_where(acts, |a: SignalAction| is_rejected(a)) == (if phase == SignalPhase::AwaitingHello
                && handshake_rejected(cfg, ev) { 1nat } else { 0nat })
            &&& count_where(acts, |a: SignalAction| is_count(a)) + owes_cleanup(phase) == count_where(
                acts,
                |a: SignalAction| is_cleanup(a),
            ) + owes_cleanup(next) + (if offer_failure(cfg, phase, ev) { 1nat } else { 0nat })
            &&& count_where(acts, |a: SignalAction| is_cleanup(a)) <= 1
            &&& count_where(acts, |a: SignalAction| is_cleanup(a)) > 0 ==> next == SignalPhase::Closed
            &&& phase == SignalPhase::Closed ==> acts.len() == 0 && next == SignalPhase::Closed
            &&& phase != SignalPhase::AwaitingHello ==> next != SignalPhase::AwaitingHello
        }),
{
    let acts = actions_for(cfg, phase, pending, ev);
    let pb = |a: SignalAction| is_build(a);
    let pr = |a: SignalAction| is_rejected(a);
    let pc = |a: SignalAction| is_count(a);
    let pu = |a: SignalAction| is_cleanup(a);
    reveal_with_fuel(count_where, 4);
    if phase == SignalPhase::Offering && !oversized(cfg, ev) && ev is OfferCreated {
        let sdp = ev->OfferCreated_0;
        let head = seq![
            SignalAction::SendOffer(sdp),
            SignalAction::SendConfig { w: cfg.width, h: cfg.height, fps: cfg.fps },
        ];
        assert(acts == head + forwards(pending));
        lemma_count_add(head, forwards(pending), pb);
        lemma_count_add(head, forwards(pending), pr);
        lemma_count_add(head, forwards(pending), pc);
        lemma_count_add(head, forwards(pending), pu);
        lemma_count_forwards(pending, pb);
        lemma_count_forwards(pending, pr);
        lemma_count_forwards(pending, pc);
        lemma_count_forwards(pending, pu);
    }
}

/// A closed connection stays closed and does nothing more.
pub proof fn lemma_closed_is_final(cfg: SignalConfig, pending: Seq<IceCandidate>, evs: Seq<SignalEvent>)
    ensures
        run(cfg, SignalPhase::Closed, pending, evs) == (SignalPhase::Closed, Seq::<SignalAction>::empty()),
    decreases evs.len(),
{
    if evs.len() > 0 {
        lemma_closed_is_final(cfg, next_pending(cfg, SignalPhase::Closed, pending, evs[0]), evs.drop_first());
        assert(Seq::<SignalAction>::empty() + Seq::<SignalAction>::empty() =~= Seq::<SignalAction>::empty());
    }
}

/// After the first step, nothing is built and no handshake is rejected.
proof fn lemma_quiet_after_hello(
    cfg: SignalConfig,
    phase: SignalPhase,
    pending: Seq<IceCandidate>,
    evs: Seq<SignalEvent>,
)
    requires
        phase != SignalPhase::AwaitingHello,
    ensures
        count_where(run(cfg, phase, pending, evs).1, |a: SignalAction| is_build(a)) == 0,
        count_where(run(cfg, phase, pending, evs).1, |a: SignalAction| is_rejected(a)) == 0,
    decreases evs.len(),
{
    if evs.len() > 0 {
        let acts = actions_for(cfg, phase, pending, evs[0]);
        let next = next_phase(cfg, phase, evs[0]);
        let np = next_pending(cfg, phase, pending, evs[0]);
        lemma_step_counts(cfg, phase, pending, evs[0]);
        lemma_quiet_after_hello(cfg, next, np, evs.drop_first());
        let rest = run(cfg, next, np, evs.drop_first()).1;
        lemma_count_add(acts, rest, |a: SignalAction| is_build(a));
        lemma_count_add(acts, rest, |a: SignalAction| is_rejected(a));
    }
}

/// Nothing is built for a client that cannot authenticate, nor beyond the
/// ceiling: over any sequence of events, a peer connection is built at most
/// once, and only when the very first event was a `hello` within the size
/// cap, with an acceptable token, arriving while fewer clients than the
/// ceiling are counted.
pub proof fn lemma_session_requires_hello(cfg: SignalConfig, pending: Seq<IceCandidate>, evs: Seq<SignalEvent>)
    ensures
        count_where(run(cfg, SignalPhase::AwaitingHello, pending, evs).1, |a: SignalAction| is_build(a)) <= 1,
        count_where(run(cfg, SignalPhase::AwaitingHello, pending, evs).1, |a: SignalAction| is_build(a)) > 0
            ==> {
            &&& evs.len() > 0
            &&& !handshake_rejected(cfg, evs[0])
            &&& !over_ceiling(cfg, evs[0])
        },
{
    if evs.len() > 0 {
        let p = SignalPhase::AwaitingHello;
        let acts = actions_for(cfg, p, pending, evs[0]);
        let next = next_phase(cfg, p, evs[0]);
        let np = next_pending(cfg, p, pending, evs[0]);
        lemma_step_counts(cfg, p, pending, evs[0]);
        if next == SignalPhase::AwaitingHello {
            assert(false);
        }
        lemma_quiet_after_hello(cfg, next, np, evs.drop_first());
        let rest = run(cfg, next, np, evs.drop_first()).1;
        lemma_count_add(acts, rest, |a: SignalAction| is_build(a));
    }
}

/// The ceiling on concurrent clients: a client that authenticates while
/// the host already counts `max_clients` clients is told so and the
/// connection closes, whatever follows, with nothing built.
pub proof fn lemma_ceiling_refuses(
    cfg: SignalConfig,
    pending: Seq<IceCandidate>,
    token: Option<String>,
    len: usize,
    clients: u64,
    rest: Seq<SignalEvent>,
)
    requires
        token_ok(cfg.auth_token, token),
        len <= cfg.max_message_len,
        clients >= cfg.max_clients,
    ensures
        ({
            let hello = SignalEvent::Text { msg: ClientText::Hello { token }, len, clients };
            &&& next_phase(cfg, SignalPhase::AwaitingHello, hello) == SignalPhase::Closed
            &&& actions_for(cfg, SignalPhase::AwaitingHello, pending, hello) == seq![
                SignalAction::SendError(SignalError::TooManyClients),
            ]
            &&& run(cfg, SignalPhase::AwaitingHello, pending, seq![hello] + rest) == (
                SignalPhase::Closed,
                seq![SignalAction::SendError(SignalError::TooManyClients)],
            )
        }),
{
    let hello = SignalEvent::Text { msg: ClientText::Hello { token }, len, clients };
    let evs = seq![hello] + rest;
    assert(evs[0] == hello);
    assert(evs.drop_first() =~= rest);
    lemma_closed_is_final(cfg, next_pending(cfg, SignalPhase::AwaitingHello, pending, hello), rest);
    assert(seq![SignalAction::SendError(SignalError::TooManyClients)] + Seq::<SignalAction>::empty()
        =~= seq![SignalAction::SendError(SignalError::TooManyClients)]);
}

/// With a token configured, a `hello` that lacks it or carries a different
/// one is answered with `bad or missing token`, counted as a rejected
/// handshake, and the connection closes.
pub proof fn lemma_wrong_token_refused(
    cfg: SignalConfig,
    pending: Seq<IceCandidate>,
    token: Option<String>,
    len: usize,
    clients: u64,
)
    requires
        cfg.auth_token is Some,
        !(token matches Some(p) && p@ == cfg.auth_token->0@),
        len <= cfg.max_message_len,
    ensures
        next_phase(cfg, SignalPhase::AwaitingHello, SignalEvent::Text { msg: ClientText::Hello { token }, len, clients })
            == SignalPhase::Closed,
        actions_for(
            cfg,
            SignalPhase::AwaitingHello,
            pending,
            SignalEvent::Text { msg: ClientText::Hello { token }, len, clients },
        ) == seq![SignalAction::SendError(SignalError::BadToken), SignalAction::CountRejected],
{
}

/// Anything other than `hello` as the first event is answered with
/// `expected hello first`, counted as a rejected handshake, and the
/// connection closes, whatever follows.
pub proof fn lemma_hello_first(cfg: SignalConfig, pending: Seq<IceCandidate>, evs: Seq<SignalEvent>)
    requires
        evs.len() > 0,
        !oversized(cfg, evs[0]),
        !(evs[0] is Text && evs[0]->msg is Hello),
    ensures
        run(cfg, SignalPhase::AwaitingHello, pending, evs) == (
            SignalPhase::Closed,
            seq![SignalAction::SendError(SignalError::ExpectedHello), SignalAction::CountRejected],
        ),
{
    lemma_closed_is_final(cfg, next_pending(cfg, SignalPhase::AwaitingHello, pending, evs[0]), evs.drop_first());
    assert(seq![SignalAction::SendError(SignalError::ExpectedHello), SignalAction::CountRejected]
        + Seq::<SignalAction>::empty() =~= seq![
        SignalAction::SendError(SignalError::ExpectedHello),
        SignalAction::CountRejected,
    ]);
}

/// The cap on message size: in every phase but the last, a text frame
/// longer than the cap is answered with `message too large` and the
/// connection closes; a counted client is uncounted, and before the
/// handshake it counts as a rejected one.
pub proof fn lemma_oversized_closes(cfg: SignalConfig, phase: SignalPhase, pending: Seq<IceCandidate>, ev: SignalEvent)
    requires
        oversized(cfg, ev),
        phase != SignalPhase::Closed,
    ensures
        next_phase(cfg, phase, ev) == SignalPhase::Closed,
        actions_for(cfg, phase, pending, ev) == if phase == SignalPhase::AwaitingHello {
            seq![SignalAction::SendError(SignalError::MessageTooLarge), SignalAction::CountRejected]
        } else if phase == SignalPhase::Building {
            seq![SignalAction::SendError(SignalError::MessageTooLarge)]
        } else {
            seq![SignalAction::SendError(SignalError::MessageTooLarge), SignalAction::Cleanup]
        },
{
}

/// Rejected handshakes are counted so probing shows: a connection counts
/// exactly one rejection when its first event is not an acceptable `hello`,
/// and none otherwise.
pub proof fn lemma_rejections_counted(cfg: SignalConfig, pending: Seq<IceCandidate>, evs: Seq<SignalEvent>)
    ensures
        count_where(run(cfg, SignalPhase::AwaitingHello, pending, evs).1, |a: SignalAction| is_rejected(a)) == (
        if evs.len() > 0 && handshake_rejected(cfg, evs[0]) {
            1nat
        } else {
            0nat
        }),
{
    if evs.len() > 0 {
        let p = SignalPhase::AwaitingHello;
        let acts = actions_for(cfg, p, pending, evs[0]);
        let next = next_phase(cfg, p, evs[0]);
        let np = next_pending(cfg, p, pending, evs[0]);
        lemma_step_counts(cfg, p, pending, evs[0]);
        if next == SignalPhase::AwaitingHello {
            assert(false);
        }
        lemma_quiet_after_hello(cfg, next, np, evs.drop_first());
        let rest = run(cfg, next, np, evs.drop_first()).1;
        lemma_count_add(acts, rest, |a: SignalAction| is_rejected(a));
    } else {
        assert(count_where(Seq::<SignalAction>::empty(), |a: SignalAction| is_rejected(a)) == 0);
    }
}

/// A connection cleans up at most once, whatever happens.
pub proof fn lemma_cleanup_at_most_once(
    cfg: SignalConfig,
    phase: SignalPhase,
    pending: Seq<IceCandidate>,
    evs: Seq<SignalEvent>,
)
    ensures
        count_where(run(cfg, phase, pending, evs).1, |a: SignalAction| is_cleanup(a)) <= 1,
        phase == SignalPhase::Closed ==> count_where(run(cfg, phase, pending, evs).1, |a: SignalAction| is_cleanup(a)) == 0,
    decreases evs.len(),
{
    let pu = |a: SignalAction| is_cleanup(a);
    if evs.len() == 0 {
        assert(count_where(Seq::<SignalAction>::empty(), pu) == 0);
    } else {
        let acts = actions_for(cfg, phase, pending, evs[0]);
        let next = next_phase(cfg, phase, evs[0]);
        let np = next_pending(cfg, phase, pending, evs[0]);
        let rest = run(cfg, next, np, evs.drop_first()).1;
        lemma_step_counts(cfg, phase, pending, evs[0]);
        lemma_cleanup_at_most_once(cfg, next, np, evs.drop_first());
        lemma_count_add(acts, rest, pu);
        if phase == SignalPhase::Closed {
            assert(acts =~= Seq::<SignalAction>::empty());
            assert(count_where(acts, pu) == 0);
        }
    }
}

proof fn lemma_counts_balance(cfg: SignalConfig, phase: SignalPhase, pending: Seq<IceCandidate>, evs: Seq<SignalEvent>)
    requires
        forall|i: int| 0 <= i < evs.len() ==> !(#[trigger] evs[i] is OfferFailed),
    ensures
        count_where(run(cfg, phase, pending, evs).1, |a: SignalAction| is_count(a)) + owes_cleanup(phase)
            == count_where(run(cfg, phase, pending, evs).1, |a: SignalAction| is_cleanup(a)) + owes_cleanup(
            run(cfg, phase, pending, evs).0,
        ),
    decreases evs.len(),
{
    let pc = |a: SignalAction| is_count(a);
    let pu = |a: SignalAction| is_cleanup(a);
    if evs.len() == 0 {
        assert(count_where(Seq::<SignalAction>::empty(), pc) == 0);
        assert(count_where(Seq::<SignalAction>::empty(), pu) == 0);
    } else {
        let acts = actions_for(cfg, phase, pending, evs[0]);
        let next = next_phase(cfg, phase, evs[0]);
        let np = next_pending(cfg, phase, pending, evs[0]);
        let tail = evs.drop_first();
        let rest = run(cfg, next, np, tail).1;
        assert(!(evs[0] is OfferFailed));
        assert forall|i: int| 0 <= i < tail.len() implies !(#[trigger] tail[i] is OfferFailed) by {
            assert(tail[i] == evs[i + 1]);
        }
        lemma_step_counts(cfg, phase, pending, evs[0]);
        lemma_counts_balance(cfg, next, np, tail);
        lemma_count_add(acts, rest, pc);
        lemma_count_add(acts, rest, pu);
    }
}

/// Every counted client is uncounted once at the end: over a connection
/// that has closed, the `CountClient` and `Cleanup` actions balance,
/// provided creating the offer never failed (that path closes without
/// uncounting, as the host has always done).
pub proof fn lemma_counted_clients_uncounted(cfg: SignalConfig, pending: Seq<IceCandidate>, evs: Seq<SignalEvent>)
    requires
        forall|i: int| 0 <= i < evs.len() ==> !(#[trigger] evs[i] is OfferFailed),
        run(cfg, SignalPhase::AwaitingHello, pending, evs).0 == SignalPhase::Closed,
    ensures
        count_where(run(cfg, SignalPhase::AwaitingHello, pending, evs).1, |a: SignalAction| is_count(a))
            == count_where(run(cfg, SignalPhase::AwaitingHello, pending, evs).1, |a: SignalAction| is_cleanup(a)),
{
    lemma_counts_balance(cfg, SignalPhase::AwaitingHello, pending, evs);
}

} // verus!
