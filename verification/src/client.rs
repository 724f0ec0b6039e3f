//! The agent: the peer of the hub that reports the price of one token.

use crate::channel::{enqueue_binary, send_error_text, Tx};
use crate::errors::{DecodeError, SwapError};
use crate::messages::{Frame, ResponseView, SwapRequest, SwapResponse};
use crate::wire::{decode_request, encode_response, parse_request, response_bytes};
use futures_channel::mpsc::TrySendError;
use tokio_tungstenite::tungstenite::protocol::Message;
use vstd::prelude::*;
use vstd::string::StringExecFns;

verus! {

/// What an agent is to do on a frame from the hub.
#[derive(Clone, Copy, Debug, PartialEq, Eq, Structural)]
pub enum Plan {
    /// The hub wants a price: fetch one and report it.
    FetchPrice,
    /// The hub asks for the token: answer with it.
    SendToken,
    /// The hub has registered the token: nothing to do.
    Continue,
    /// The hub has refused the token: end the session at once.
    Terminate,
    /// The frame did not decode: pass it over.
    SkipMalformed(DecodeError),
    /// The frame was no binary frame: pass it over.
    SkipNonBinary,
}

/// The agent's side of the protocol.
pub open spec fn plan_for(frame: Frame) -> Plan {
    match frame {
        Frame::Other => Plan::SkipNonBinary,
        Frame::Binary(bytes) => match parse_request(bytes@) {
            Err(e) => Plan::SkipMalformed(e),
            Ok(SwapRequest::TokenPrice) => Plan::FetchPrice,
            Ok(SwapRequest::WhichToken) => Plan::SendToken,
            Ok(SwapRequest::ValidToken) => Plan::Continue,
            Ok(SwapRequest::RepeatedToken) => Plan::Terminate,
        },
    }
}

/// What an agent did on a frame from the hub.
#[derive(Clone, Debug, PartialEq, Eq)]
pub enum ClientEvent {
    /// A price is wanted; fetching it is the caller's part.
    PriceWanted,
    /// The answer that was sent to the hub: the agent's token.
    TokenSent(SwapResponse),
    /// The token could not be sent.
    SendFailed(SwapError),
    /// The hub has registered the token.
    Accepted,
    /// The hub has refused the token; the caller ends the session.
    Refused,
    /// The frame did not decode and was passed over.
    Malformed(DecodeError),
    /// The frame was no binary frame and was passed over.
    NonBinary,
}

/// Whether `error` is what a failed attempt to queue a frame gives: a
/// [`SwapError::SendRequestError`] with one of the two texts that the queue
/// has for a failure.
pub open spec fn is_send_failure(error: SwapError) -> bool {
    error matches SwapError::SendRequestError(text) && (text@
        == "send failed because channel is full"@ || text@
        == "send failed because receiver is gone"@)
}

/// Whether `event` is a way for `plan` to have gone for an agent that
/// reports `token`. The answer to `WhichToken` is the agent's own token,
/// unchanged.
pub open spec fn carries_out(event: ClientEvent, plan: Plan, token: Seq<char>) -> bool {
    match plan {
        Plan::FetchPrice => event is PriceWanted,
        Plan::SendToken => (event matches ClientEvent::TokenSent(response) && response@
            == ResponseView::WhichToken(token)) || (event matches ClientEvent::SendFailed(e)
            && is_send_failure(e)),
        Plan::Continue => event is Accepted,
        Plan::Terminate => event is Refused,
        Plan::SkipMalformed(e) => event == ClientEvent::Malformed(e),
        Plan::SkipNonBinary => event is NonBinary,
    }
}

/// An agent: where its hub is, which token it reports, and where it gets
/// prices from.
pub struct Client {
    url: String,
    token: String,
    token_balance_url: String,
}

impl Client {
    /// The address of the hub.
    pub closed spec fn spec_url(&self) -> Seq<char> {
        self.url@
    }

    /// The token that the agent reports.
    pub closed spec fn spec_token(&self) -> Seq<char> {
        self.token@
    }

    /// The address of the price source, up to the token's address.
    pub closed spec fn spec_token_balance_url(&self) -> Seq<char> {
        self.token_balance_url@
    }

    /// An agent for the hub at `url` that reports `token` and asks
    /// `token_balance_url` for prices.
    pub fn new(url: String, token: String, token_balance_url: String) -> (client: Self)
        ensures
            client.spec_url() == url@,
            client.spec_token() == token@,
            client.spec_token_balance_url() == token_balance_url@,
    {
        Self { url, token, token_balance_url }
    }

    /// The address of the hub.
    pub fn url(&self) -> (url: &String)
        ensures
            url@ == self.spec_url(),
    {
        &self.url
    }

    /// The token that the agent reports.
    pub fn token(&self) -> (token: &String)
        ensures
            token@ == self.spec_token(),
    {
        &self.token
    }

    /// The address of the price source, up to the token's address.
    pub fn token_balance_url(&self) -> (url: &String)
        ensures
            url@ == self.spec_token_balance_url(),
    {
        &self.token_balance_url
    }

    /// The address to ask for the price of the token at `token_address`:
    /// the price source's address followed by the token's.
    pub fn price_url(&self, token_address: &str) -> (url: String)
        ensures
            url@ == self.spec_token_balance_url() + token_address@,
    {
        let mut url = self.token_balance_url.clone();
        url.append(token_address);
        url
    }

    /// What to do on a frame from the hub.
    pub fn plan(frame: &Frame) -> (plan: Plan)
        ensures
            plan == plan_for(*frame),
    {
        match frame {
            Frame::Other => Plan::SkipNonBinary,
            Frame::Binary(bytes) => match decode_request(bytes.as_slice()) {
                Err(e) => Plan::SkipMalformed(e),
                Ok(SwapRequest::TokenPrice) => Plan::FetchPrice,
                Ok(SwapRequest::WhichToken) => Plan::SendToken,
                Ok(SwapRequest::ValidToken) => Plan::Continue,
                Ok(SwapRequest::RepeatedToken) => Plan::Terminate,
            },
        }
    }

    /// The answer to the hub's `WhichToken`.
    pub fn token_response(&self) -> (response: SwapResponse)
        ensures
            response@ == ResponseView::WhichToken(self.spec_token()),
    {
        SwapResponse::WhichToken(self.token.clone())
    }

    /// What came of an attempt to queue a frame for the hub: success, or
    /// the failure as a [`SwapError::SendRequestError`] that carries the
    /// queue's own words for it.
    pub fn send_result(outcome: Result<(), TrySendError<Message>>) -> (result: Result<(), SwapError>)
        ensures
            result is Ok <==> outcome is Ok,
            result matches Err(e) ==> is_send_failure(e),
    {
        match outcome {
            Ok(()) => Ok(()),
            Err(error) => Err(SwapError::SendRequestError(send_error_text(&error))),
        }
    }

    /// Encodes `message` and queues the frame for the hub. Whether the frame
    /// is queued lies with the queue: it is not when the connection's
    /// receiving half is gone. The failure is a
    /// [`SwapError::SendRequestError`] that carries the queue's own words
    /// for it.
    pub fn send_swap_response_message(message: &SwapResponse, ws_sender: &Tx) -> (result: Result<
        (),
        SwapError,
    >)
        ensures
            result matches Err(e) ==> is_send_failure(e),
    {
        let frame = encode_response(message);
        assert(frame@ == response_bytes(message@));
        Self::send_result(enqueue_binary(ws_sender, frame))
    }

    /// Handles one frame from the hub as [`plan_for`] says. The token is
    /// sent from here; fetching a price and ending the session are left to
    /// the caller, who learns of them from the result.
    pub fn on_frame(&self, ws_sender: &Tx, frame: &Frame) -> (event: ClientEvent)
        ensures
            carries_out(event, plan_for(*frame), self.spec_token()),
    {
        match Self::plan(frame) {
            Plan::FetchPrice => ClientEvent::PriceWanted,
            Plan::SendToken => {
                let response = self.token_response();
                match Self::send_swap_response_message(&response, ws_sender) {
                    Ok(()) => ClientEvent::TokenSent(response),
                    Err(e) => ClientEvent::SendFailed(e),
                }
            },
            Plan::Continue => ClientEvent::Accepted,
            Plan::Terminate => ClientEvent::Refused,
            Plan::SkipMalformed(e) => ClientEvent::Malformed(e),
            Plan::SkipNonBinary => ClientEvent::NonBinary,
        }
    }
}

} // verus!
