//! The messages of the protocol between hub and agent.

use crate::models::{CoinView, TokenInfoResponse};
use vstd::prelude::*;

verus! {

/// What the hub says to an agent.
#[derive(Clone, Copy, Debug, PartialEq, Eq, Structural)]
pub enum SwapRequest {
    /// Which token do you report?
    WhichToken,
    /// Your token is registered.
    ValidToken,
    /// Your token is taken; go away.
    RepeatedToken,
    /// Send the price of your token.
    TokenPrice,
}

/// What an agent says to the hub.
#[derive(Clone, Debug, PartialEq, Eq)]
pub enum SwapResponse {
    /// The token that the agent reports.
    WhichToken(String),
    /// A price report.
    TokenPrice(TokenInfoResponse),
}

/// The mathematical value of a [`SwapResponse`].
pub enum ResponseView {
    WhichToken(Seq<char>),
    TokenPrice(Seq<(Seq<char>, CoinView)>),
}

impl View for SwapResponse {
    type V = ResponseView;

    open spec fn view(&self) -> ResponseView {
        match *self {
            SwapResponse::WhichToken(token) => ResponseView::WhichToken(token@),
            SwapResponse::TokenPrice(report) => ResponseView::TokenPrice(report@),
        }
    }
}

/// One frame as the transport hands it over: a binary payload, or anything
/// else (text, ping, pong, close), which carries no message.
#[derive(Clone, Debug, PartialEq, Eq)]
pub enum Frame {
    /// A binary frame and its payload.
    Binary(Vec<u8>),
    /// A frame of any other kind.
    Other,
}

} // verus!
