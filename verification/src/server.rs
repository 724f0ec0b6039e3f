//! The hub: the two registries, the address it serves on, and the period of
//! its price polling.

use crate::channel::{send_request, Reply, Tx};
use crate::identity::ConnId;
use crate::messages::SwapRequest;
use crate::peers::{asks_only_for_prices, failed, sends_to, Delivery, PeerRegistry};
use crate::registry::TokenRegistry;
use vstd::prelude::*;

verus! {

/// The state of a hub.
pub struct Server {
    /// The address to listen on.
    pub addr: String,
    /// The live connections.
    pub peers: PeerRegistry,
    /// The token bindings.
    pub tokens: TokenRegistry,
    /// The period of the price polling, in seconds. Never zero.
    pub timeout_secs: u64,
}

impl Server {
    /// The hub's invariant: both registries are well-formed and the polling
    /// has a period.
    pub open spec fn wf(&self) -> bool {
        self.peers.wf() && self.tokens.wf() && self.timeout_secs > 0
    }

    /// A hub for `addr` that polls every `timeout_secs` seconds and knows no
    /// connection yet. A timer cannot tick every zero seconds, so the period
    /// must not be zero.
    pub fn new(addr: String, timeout_secs: u64) -> (server: Self)
        requires
            timeout_secs > 0,
        ensures
            server.wf(),
            server.addr == addr,
            server.timeout_secs == timeout_secs,
            server.peers@ == Map::<ConnId, Tx>::empty(),
            server.tokens.by_addr() == Map::<ConnId, Seq<char>>::empty(),
    {
        Server { addr, peers: PeerRegistry::new(), tokens: TokenRegistry::new(), timeout_secs }
    }

    /// Sends `message` to the peer behind `ws_sender`. The result names the
    /// request that was handed to the peer's queue and says whether it was
    /// queued. It is not when the peer's connection is gone, which is no
    /// error: the caller drops the peer.
    pub fn send_swap_request_message(message: SwapRequest, ws_sender: &Tx, peer_addr: ConnId) -> (reply:
        Reply)
        ensures
            reply.request == message,
    {
        let _ = peer_addr;
        send_request(ws_sender, message)
    }

    /// One tick of the broadcast timer: every connection that holds a token
    /// is sent exactly one `TokenPrice` request and no other connection is
    /// sent anything; the connections whose request could not be queued
    /// leave the peer registry. The token registry is not touched.
    pub fn broadcast(&mut self) -> (report: Vec<Delivery>)
        requires
            old(self).wf(),
        ensures
            final(self).wf(),
            final(self).addr == old(self).addr,
            final(self).timeout_secs == old(self).timeout_secs,
            final(self).tokens == old(self).tokens,
            forall|id: ConnId| #[trigger]
                sends_to(report@, id) == (if old(self).peers@.contains_key(id) && old(
                    self,
                ).tokens.by_addr().contains_key(id) {
                    1nat
                } else {
                    0nat
                }),
            asks_only_for_prices(report@),
            final(self).peers@ == old(self).peers@.remove_keys(failed(report@)),
    {
        self.peers.fan_out(&self.tokens)
    }
}

} // verus!
