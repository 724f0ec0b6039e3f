//! The session of one connection: the protocol's state machine on the hub's
//! side, from the greeting to the teardown.
//!
//! A session starts `Connected` and greets the agent with `WhichToken`. The
//! agent's answer either registers its token (`Registered`) or, where the
//! token is taken, gets the session rejected (`Rejected`). Price reports
//! count only once the session is registered. A frame that is no binary
//! frame, or that does not decode, is passed over and changes nothing. When
//! the stream ends the session is `Closed` and has left both registries.

use crate::channel::{another_handle, send_request, Reply, Tx};
use crate::errors::DecodeError;
use crate::identity::ConnId;
use crate::messages::{Frame, ResponseView, SwapRequest, SwapResponse};
use crate::models::{CoinView, TokenInfoResponse};
use crate::peers::PeerRegistry;
use crate::registry::{
    lemma_register_keeps_injective, lemma_unregister_keeps_injective, Registration, TokenRegistry,
};
use crate::wire::{decode_response, parse_response};
use vstd::prelude::*;

verus! {

/// Where a session stands.
#[derive(Clone, Debug, PartialEq, Eq)]
pub enum SessionState {
    /// The connection is up and has not registered a token.
    Connected,
    /// The connection holds the token.
    Registered(String),
    /// The connection asked for a token that was taken. Final.
    Rejected,
    /// The stream has ended. Final.
    Closed,
}

/// The mathematical value of a [`SessionState`].
pub enum StateView {
    Connected,
    Registered(Seq<char>),
    Rejected,
    Closed,
}

impl View for SessionState {
    type V = StateView;

    open spec fn view(&self) -> StateView {
        match *self {
            SessionState::Connected => StateView::Connected,
            SessionState::Registered(token) => StateView::Registered(token@),
            SessionState::Rejected => StateView::Rejected,
            SessionState::Closed => StateView::Closed,
        }
    }
}

/// Whether a session in `state` still takes frames.
pub open spec fn is_live(state: StateView) -> bool {
    state is Connected || state is Registered
}

/// What a frame meant to the session.
#[derive(Clone, Debug, PartialEq, Eq)]
pub enum SessionEvent {
    /// The frame was no binary frame. It was passed over.
    NonBinary,
    /// The frame did not decode. It was passed over.
    Malformed(DecodeError),
    /// The agent's token was free and is now registered.
    Registered,
    /// The agent's token was taken. The session is over.
    Rejected,
    /// A price report from a registered agent.
    Price(TokenInfoResponse),
    /// A price report from an agent that has not registered. It was passed
    /// over.
    NotRegistered,
    /// The frame came after the session had ended. It was dropped.
    Finished,
}

/// The mathematical value of a [`SessionEvent`].
pub enum EventView {
    NonBinary,
    Malformed(DecodeError),
    Registered,
    Rejected,
    Price(Seq<(Seq<char>, CoinView)>),
    NotRegistered,
    Finished,
}

impl View for SessionEvent {
    type V = EventView;

    open spec fn view(&self) -> EventView {
        match *self {
            SessionEvent::NonBinary => EventView::NonBinary,
            SessionEvent::Malformed(e) => EventView::Malformed(e),
            SessionEvent::Registered => EventView::Registered,
            SessionEvent::Rejected => EventView::Rejected,
            SessionEvent::Price(report) => EventView::Price(report@),
            SessionEvent::NotRegistered => EventView::NotRegistered,
            SessionEvent::Finished => EventView::Finished,
        }
    }
}

/// What the session did with a frame.
#[derive(Clone, Debug, PartialEq, Eq)]
pub struct Reaction {
    /// What the frame meant.
    pub event: SessionEvent,
    /// The request sent in answer, if one was.
    pub reply: Option<Reply>,
}

/// The effect of one frame on a session and on the token registry.
pub struct Outcome {
    /// The session's next state.
    pub state: StateView,
    /// The token registry, read by connection, afterwards.
    pub by_addr: Map<ConnId, Seq<char>>,
    /// Whether the connection leaves the peer registry.
    pub evicted: bool,
    /// The request to send in answer, if any.
    pub reply: Option<SwapRequest>,
    /// What the frame meant.
    pub event: EventView,
}

/// A step that changes nothing and answers nothing.
pub open spec fn pass_over(state: StateView, by_addr: Map<ConnId, Seq<char>>, event: EventView)
    -> Outcome {
    Outcome { state, by_addr, evicted: false, reply: None, event }
}

/// The protocol: what a frame does to the session of connection `id` in
/// `state`, with the token registry reading `by_addr`.
pub open spec fn step(state: StateView, by_addr: Map<ConnId, Seq<char>>, id: ConnId, frame: Frame)
    -> Outcome {
    if !is_live(state) {
        pass_over(state, by_addr, EventView::Finished)
    } else {
        match frame {
            Frame::Other => pass_over(state, by_addr, EventView::NonBinary),
            Frame::Binary(bytes) => match parse_response(bytes@) {
                Err(e) => pass_over(state, by_addr, EventView::Malformed(e)),
                Ok(ResponseView::TokenPrice(report)) => {
                    if state is Registered {
                        pass_over(state, by_addr, EventView::Price(report))
                    } else {
                        pass_over(state, by_addr, EventView::NotRegistered)
                    }
                },
                Ok(ResponseView::WhichToken(token)) => {
                    if by_addr.contains_value(token) {
                        Outcome {
                            state: StateView::Rejected,
                            by_addr: by_addr.remove(id),
                            evicted: true,
                            reply: Some(SwapRequest::RepeatedToken),
                            event: EventView::Rejected,
                        }
                    } else {
                        Outcome {
                            state: StateView::Registered(token),
                            by_addr: by_addr.insert(id, token),
                            evicted: false,
                            reply: Some(SwapRequest::ValidToken),
                            event: EventView::Registered,
                        }
                    }
                },
            },
        }
    }
}

/// Whether a frame carries no message: it is no binary frame, or its
/// payload does not decode.
pub open spec fn carries_no_message(frame: Frame) -> bool {
    match frame {
        Frame::Other => true,
        Frame::Binary(bytes) => parse_response(bytes@) is Err,
    }
}

/// A frame that carries no message never ends the session and leaves no
/// trace: the session stays in its state, the registries stay as they were,
/// nothing is sent, and the frame that comes next is handled exactly as if
/// the bad one had not come.
pub proof fn lemma_bad_frame_is_passed_over(
    state: StateView,
    by_addr: Map<ConnId, Seq<char>>,
    id: ConnId,
    bad: Frame,
    next: Frame,
)
    requires
        carries_no_message(bad),
    ensures
        step(state, by_addr, id, bad).state == state,
        step(state, by_addr, id, bad).by_addr == by_addr,
        !step(state, by_addr, id, bad).evicted,
        step(state, by_addr, id, bad).reply is None,
        is_live(state) ==> is_live(step(state, by_addr, id, bad).state),
        step(step(state, by_addr, id, bad).state, step(state, by_addr, id, bad).by_addr, id, next)
            == step(state, by_addr, id, next),
{
}

/// A step keeps the token registry one-to-one.
pub proof fn lemma_step_keeps_injective(
    state: StateView,
    by_addr: Map<ConnId, Seq<char>>,
    id: ConnId,
    frame: Frame,
)
    requires
        by_addr.is_injective(),
    ensures
        step(state, by_addr, id, frame).by_addr.is_injective(),
{
    let after = step(state, by_addr, id, frame);
    if after.event is Rejected {
        lemma_unregister_keeps_injective(by_addr, id);
    } else if after.event is Registered {
        let token = after.state->Registered_0;
        lemma_register_keeps_injective(by_addr, id, token);
    }
}

/// The session of one connection.
pub struct Session {
    id: ConnId,
    state: SessionState,
    tx: Tx,
}

impl Session {
    /// The connection that the session belongs to.
    pub closed spec fn conn(&self) -> ConnId {
        self.id
    }

    /// Where the session stands.
    pub closed spec fn phase(&self) -> StateView {
        self.state@
    }

    /// The sender on which the session answers its agent.
    pub closed spec fn queue(&self) -> Tx {
        self.tx
    }

    /// The connection that the session belongs to.
    pub fn id(&self) -> (id: ConnId)
        ensures
            id == self.conn(),
    {
        self.id
    }

    /// Where the session stands.
    pub fn state(&self) -> (state: &SessionState)
        ensures
            state@ == self.phase(),
    {
        &self.state
    }

    /// Starts the session of a connection that has just come up: enters it
    /// into the peer registry with a sender for its queue, and asks the
    /// agent which token it reports. The session is `Connected` and keeps
    /// `tx` for its answers. The second result is the greeting: the
    /// `WhichToken` request, and whether it could be queued.
    pub fn open(peers: &mut PeerRegistry, id: ConnId, tx: Tx) -> (opened: (Session, Reply))
        requires
            old(peers).wf(),
        ensures
            final(peers).wf(),
            final(peers)@.contains_key(id),
            final(peers)@.remove(id) == old(peers)@.remove(id),
            opened.0.conn() == id,
            opened.0.phase() == StateView::Connected,
            opened.0.queue() == tx,
            opened.1.request == SwapRequest::WhichToken,
    {
        let handle = another_handle(&tx);
        peers.insert_peer(id, handle);
        proof {
            assert(peers@.remove(id) =~= old(peers)@.remove(id));
        }
        let greeting = send_request(&tx, SwapRequest::WhichToken);
        (Session { id, state: SessionState::Connected, tx }, greeting)
    }

    /// Whether the session still takes frames.
    pub fn is_live(&self) -> (live: bool)
        ensures
            live == is_live(self.phase()),
    {
        match self.state {
            SessionState::Connected => true,
            SessionState::Registered(_) => true,
            SessionState::Rejected => false,
            SessionState::Closed => false,
        }
    }

    /// Whether the session has registered a token.
    pub fn is_registered(&self) -> (registered: bool)
        ensures
            registered == (self.phase() is Registered),
    {
        match self.state {
            SessionState::Registered(_) => true,
            _ => false,
        }
    }

    /// Handles one inbound frame as [`step`] says. A token that is free is
    /// registered and answered with `ValidToken`. A token that is taken is
    /// answered with `RepeatedToken`, and the session's teardown is done at
    /// once: the connection leaves both registries. Whether an answer could
    /// be queued is reported and changes nothing else.
    pub fn on_frame(
        &mut self,
        peers: &mut PeerRegistry,
        tokens: &mut TokenRegistry,
        frame: &Frame,
    ) -> (reaction: Reaction)
        requires
            old(peers).wf(),
            old(tokens).wf(),
        ensures
            final(peers).wf(),
            final(tokens).wf(),
            final(self).conn() == old(self).conn(),
            final(self).queue() == old(self).queue(),
            ({
                let todo = step(old(self).phase(), old(tokens).by_addr(), old(self).conn(), *frame);
                &&& final(self).phase() == todo.state
                &&& final(tokens).by_addr() == todo.by_addr
                &&& final(peers)@ == (if todo.evicted {
                    old(peers)@.remove(old(self).conn())
                } else {
                    old(peers)@
                })
                &&& reaction.event@ == todo.event
                &&& match reaction.reply {
                    Some(reply) => todo.reply == Some(reply.request),
                    None => todo.reply is None,
                }
            }),
    {
        if !self.is_live() {
            return Reaction { event: SessionEvent::Finished, reply: None };
        }
        let payload = match frame {
            Frame::Other => {
                return Reaction { event: SessionEvent::NonBinary, reply: None };
            },
            Frame::Binary(bytes) => bytes,
        };
        match decode_response(payload.as_slice()) {
            Err(e) => Reaction { event: SessionEvent::Malformed(e), reply: None },
            Ok(SwapResponse::TokenPrice(report)) => {
                if self.is_registered() {
                    Reaction { event: SessionEvent::Price(report), reply: None }
                } else {
                    Reaction { event: SessionEvent::NotRegistered, reply: None }
                }
            },
            Ok(SwapResponse::WhichToken(token)) => {
                let held = token.clone();
                match tokens.register_token(self.id, token) {
                    Registration::AlreadyTaken => {
                        let reply = send_request(&self.tx, SwapRequest::RepeatedToken);
                        peers.remove_peer(self.id);
                        tokens.unregister(self.id);
                        self.state = SessionState::Rejected;
                        Reaction { event: SessionEvent::Rejected, reply: Some(reply) }
                    },
                    Registration::Registered => {
                        let reply = send_request(&self.tx, SwapRequest::ValidToken);
                        self.state = SessionState::Registered(held);
                        Reaction { event: SessionEvent::Registered, reply: Some(reply) }
                    },
                }
            },
        }
    }

    /// The teardown, to be run when the stream ends, whatever ended it. The
    /// connection leaves the peer registry, its token binding leaves the
    /// token registry in both directions, and the session is `Closed`. No
    /// other connection and no other binding is touched.
    pub fn close(&mut self, peers: &mut PeerRegistry, tokens: &mut TokenRegistry)
        requires
            old(peers).wf(),
            old(tokens).wf(),
        ensures
            final(peers).wf(),
            final(tokens).wf(),
            final(self).conn() == old(self).conn(),
            final(self).queue() == old(self).queue(),
            final(self).phase() == StateView::Closed,
            final(peers)@ == old(peers)@.remove(old(self).conn()),
            final(tokens).by_addr() == old(tokens).by_addr().remove(old(self).conn()),
            !final(peers)@.contains_key(old(self).conn()),
            !final(tokens).by_addr().contains_key(old(self).conn()),
            old(tokens).by_addr().contains_key(old(self).conn()) ==> !final(tokens).by_token().contains_key(
                old(tokens).by_addr()[old(self).conn()],
            ),
            forall|token: Seq<char>| #[trigger]
                final(tokens).by_token().contains_key(token) ==> final(tokens).by_token()[token]
                    != old(self).conn(),
    {
        peers.remove_peer(self.id);
        let _ = tokens.unregister(self.id);
        self.state = SessionState::Closed;
        proof {
            tokens.lemma_wf_is_inverse();
        }
    }
}

} // verus!
