//! The peer registry: the outbound channel of every live connection, and the
//! periodic fan-out of price requests over it.

use crate::channel::{send_request, Tx};
use crate::identity::ConnId;
use crate::messages::SwapRequest;
use crate::registry::TokenRegistry;
use crate::table::{has_id, lemma_dom_len, slot_of, IdTable};
use vstd::prelude::*;

verus! {

/// One request of a fan-out: to whom it went, what it was and whether it
/// could be queued.
#[derive(Clone, Copy, Debug, PartialEq, Eq, Structural)]
pub struct Delivery {
    /// The peer that was asked.
    pub peer: ConnId,
    /// The request that was handed to the peer's queue.
    pub request: SwapRequest,
    /// Whether the request was put on the peer's queue.
    pub delivered: bool,
}

/// Every request of `report` is a `TokenPrice` request.
pub open spec fn asks_only_for_prices(report: Seq<Delivery>) -> bool {
    forall|k: int| 0 <= k < report.len() ==> (#[trigger] report[k]).request == SwapRequest::TokenPrice
}

/// How many requests of `report` went to `id`.
pub open spec fn sends_to(report: Seq<Delivery>, id: ConnId) -> nat
    decreases report.len(),
{
    if report.len() == 0 {
        0
    } else {
        sends_to(report.drop_last(), id) + if report.last().peer == id {
            1nat
        } else {
            0nat
        }
    }
}

/// The peers of `report` whose request could not be queued.
pub open spec fn failed(report: Seq<Delivery>) -> Set<ConnId> {
    Set::new(
        |id: ConnId|
            exists|k: int|
                0 <= k < report.len() && (#[trigger] report[k]).peer == id && !report[k].delivered,
    )
}

/// One more delivery adds one to the count of its peer and nothing to the
/// count of any other.
proof fn lemma_sends_to_push(report: Seq<Delivery>, delivery: Delivery, id: ConnId)
    ensures
        sends_to(report.push(delivery), id) == sends_to(report, id) + if delivery.peer == id {
            1nat
        } else {
            0nat
        },
{
    assert(report.push(delivery).drop_last() =~= report);
}

/// The registry of live connections.
pub struct PeerRegistry {
    table: IdTable<Tx>,
}

impl View for PeerRegistry {
    type V = Map<ConnId, Tx>;

    closed spec fn view(&self) -> Map<ConnId, Tx> {
        self.table@
    }
}

impl PeerRegistry {
    /// The registry's invariant.
    pub closed spec fn wf(&self) -> bool {
        self.table.wf()
    }

    /// An empty registry.
    pub fn new() -> (registry: Self)
        ensures
            registry.wf(),
            registry@ == Map::<ConnId, Tx>::empty(),
    {
        PeerRegistry { table: IdTable::new() }
    }

    /// The number of live connections.
    pub fn len(&self) -> (n: usize)
        requires
            self.wf(),
        ensures
            n == self@.len(),
            self@.dom().finite(),
    {
        proof {
            lemma_dom_len(self.table.entries());
        }
        self.table.len()
    }

    /// Whether `id` is a live connection.
    pub fn contains(&self, id: ConnId) -> (present: bool)
        requires
            self.wf(),
        ensures
            present == self@.contains_key(id),
    {
        self.table.contains(id)
    }

    /// Enters a connection with its outbound channel. A connection already
    /// entered under `id` gets the new channel.
    pub fn insert_peer(&mut self, id: ConnId, tx: Tx)
        requires
            old(self).wf(),
        ensures
            final(self).wf(),
            final(self)@ == old(self)@.insert(id, tx),
    {
        self.table.insert(id, tx);
    }

    /// Takes a connection out; returns whether it was there.
    pub fn remove_peer(&mut self, id: ConnId) -> (was_present: bool)
        requires
            old(self).wf(),
        ensures
            final(self).wf(),
            final(self)@ == old(self)@.remove(id),
            was_present == old(self)@.contains_key(id),
    {
        self.table.remove(id).is_some()
    }

    /// One round of price polling. Every peer that holds a token in
    /// `tokens` is sent one `TokenPrice` request; no other peer is sent
    /// anything. A peer whose request cannot be queued is taken out of the
    /// registry; every other peer stays, with its channel. The result lists
    /// the requests that were made.
    pub fn fan_out(&mut self, tokens: &TokenRegistry) -> (report: Vec<Delivery>)
        requires
            old(self).wf(),
            tokens.wf(),
        ensures
            final(self).wf(),
            forall|id: ConnId| #[trigger]
                sends_to(report@, id) == (if old(self)@.contains_key(id)
                    && tokens.by_addr().contains_key(id) {
                    1nat
                } else {
                    0nat
                }),
            asks_only_for_prices(report@),
            final(self)@ == old(self)@.remove_keys(failed(report@)),
    {
        let ghost before = self.table@;
        let ghost entries = self.table.entries();
        let n: usize = self.table.len();
        let mut report: Vec<Delivery> = Vec::new();
        let mut i: usize = 0;
        while i < n
            invariant
                self.table.wf(),
                tokens.wf(),
                self.table.entries() == entries,
                n == entries.len(),
                i <= n,
                asks_only_for_prices(report@),
                forall|id: ConnId| #[trigger]
                    sends_to(report@, id) == (if has_id(entries.subrange(0, i as int), id)
                        && tokens.by_addr().contains_key(id) {
                        1nat
                    } else {
                        0nat
                    }),
            decreases n - i,
        {
            let peer = self.table.key_at(i);
            let ghost sent = report@;
            let ghost seen = entries.subrange(0, i as int);
            let ghost next = entries.subrange(0, i as int + 1);
            proof {
                assert forall|id: ConnId| has_id(next, id) <==> (has_id(seen, id) || id
                    == peer) by {
                    if has_id(next, id) {
                        let k = slot_of(next, id);
                        if k < i {
                            assert(seen[k] == next[k]);
                        }
                    }
                    if has_id(seen, id) {
                        let k = slot_of(seen, id);
                        assert(next[k] == seen[k]);
                    }
                    if id == peer {
                        assert(next[i as int].0 == id);
                    }
                }
                if has_id(seen, peer) {
                    let k = slot_of(seen, peer);
                    assert(seen[k] == entries[k]);
                    assert(entries[k].0 != entries[i as int].0);
                }
            }
            if tokens.is_registered(peer) {
                let reply = send_request(self.table.value_at(i), SwapRequest::TokenPrice);
                let delivery = Delivery { peer, request: reply.request, delivered: reply.queued };
                report.push(delivery);
                proof {
                    assert forall|id: ConnId| #[trigger]
                        sends_to(report@, id) == (if has_id(next, id)
                            && tokens.by_addr().contains_key(id) {
                            1nat
                        } else {
                            0nat
                        }) by {
                        lemma_sends_to_push(sent, delivery, id);
                    }
                }
            }
            i += 1;
        }
        proof {
            assert(entries.subrange(0, n as int) =~= entries);
        }
        let count: usize = report.len();
        let mut j: usize = 0;
        proof {
            assert(failed(report@.subrange(0, 0)) =~= Set::<ConnId>::empty());
            assert(before =~= before.remove_keys(Set::<ConnId>::empty()));
        }
        while j < count
            invariant
                self.table.wf(),
                count == report@.len(),
                asks_only_for_prices(report@),
                j <= count,
                self.table@ == before.remove_keys(failed(report@.subrange(0, j as int))),
            decreases count - j,
        {
            let delivery = report[j];
            let ghost done = report@.subrange(0, j as int);
            let ghost more = report@.subrange(0, j as int + 1);
            proof {
                assert forall|id: ConnId| failed(more).contains(id) <==> (failed(done).contains(id)
                    || (id == delivery.peer && !delivery.delivered)) by {
                    if failed(more).contains(id) {
                        let k = choose|k: int|
                            0 <= k < more.len() && (#[trigger] more[k]).peer == id
                                && !more[k].delivered;
                        if k < j {
                            assert(done[k] == more[k]);
                        }
                    }
                    if failed(done).contains(id) {
                        let k = choose|k: int|
                            0 <= k < done.len() && (#[trigger] done[k]).peer == id
                                && !done[k].delivered;
                        assert(more[k] == done[k]);
                    }
                    if id == delivery.peer && !delivery.delivered {
                        assert(more[j as int] == delivery);
                    }
                }
            }
            if !delivery.delivered {
                self.table.remove(delivery.peer);
                proof {
                    assert(self.table@ =~= before.remove_keys(failed(more)));
                }
            } else {
                proof {
                    assert(failed(more) =~= failed(done));
                }
            }
            j += 1;
        }
        proof {
            assert(report@.subrange(0, count as int) =~= report@);
            assert forall|id: ConnId| has_id(entries, id) <==> before.contains_key(id) by {}
        }
        report
    }
}

} // verus!
