//! The outbound channel of a connection.
//!
//! Every connection has an unbounded queue of web-socket messages; whoever
//! holds a sender for it can enqueue a frame without waiting. The queue and
//! the message type come from outside crates and are taken on trust here.

use crate::messages::SwapRequest;
use crate::wire::{encode_request, request_bytes};
use futures_channel::mpsc::{TrySendError, UnboundedSender};
use tokio_tungstenite::tungstenite::protocol::Message;
use vstd::prelude::*;

verus! {

/// `futures_channel::mpsc::UnboundedSender`, opaque to the verifier.
#[verifier::external_type_specification]
#[verifier::external_body]
#[verifier::reject_recursive_types(T)]
pub struct ExUnboundedSender<T>(UnboundedSender<T>);

/// `futures_channel::mpsc::TrySendError`, opaque to the verifier.
#[verifier::external_type_specification]
#[verifier::external_body]
#[verifier::reject_recursive_types(T)]
pub struct ExTrySendError<T>(TrySendError<T>);

/// `tungstenite::protocol::Message`, opaque to the verifier.
#[verifier::external_type_specification]
#[verifier::external_body]
pub struct ExMessage(Message);

/// The sending half of a connection's outbound queue.
pub type Tx = UnboundedSender<Message>;

/// Calls `UnboundedSender::unbounded_send` with the payload wrapped by
/// `Message::binary`. Nothing is claimed of the result: whether the frame is
/// queued depends on whether the receiving half is still open. The call
/// never blocks; it panics only if the queue already holds more messages
/// than its counter can count (about 2^63), which memory rules out.
#[verifier::external_body]
pub(crate) fn enqueue_binary(tx: &Tx, payload: Vec<u8>) -> (outcome: Result<
    (),
    TrySendError<Message>,
>) {
    tx.unbounded_send(Message::binary(payload))
}

/// Calls `UnboundedSender::clone`: another sender for the same queue. The
/// contract says nothing of it, a queue having no value that could be named.
#[verifier::external_body]
pub(crate) fn another_handle(tx: &Tx) -> (handle: Tx) {
    tx.clone()
}

/// Calls the `Display` rendering of `TrySendError` through `to_string`. The
/// rendering has two texts, one for a full queue and one for a receiver
/// that is gone.
#[verifier::external_body]
pub(crate) fn send_error_text(error: &TrySendError<Message>) -> (text: String)
    ensures
        text@ == "send failed because channel is full"@ || text@
            == "send failed because receiver is gone"@,
{
    error.to_string()
}

/// Whether an attempt to enqueue a frame put it on the queue.
pub fn delivered(outcome: &Result<(), TrySendError<Message>>) -> (ok: bool)
    ensures
        ok == (outcome is Ok),
{
    outcome.is_ok()
}

/// A request that was handed to a connection's queue, and whether the queue
/// took it.
#[derive(Clone, Copy, Debug, PartialEq, Eq, Structural)]
pub struct Reply {
    /// The request.
    pub request: SwapRequest,
    /// Whether it could be put on the connection's queue.
    pub queued: bool,
}

/// The record of an attempt to enqueue `request` that ended in `outcome`.
pub fn reply_of(request: SwapRequest, outcome: &Result<(), TrySendError<Message>>) -> (reply: Reply)
    ensures
        reply.request == request,
        reply.queued == (outcome is Ok),
{
    Reply { request, queued: delivered(outcome) }
}

/// Encodes `message` and puts the frame on the queue behind `tx`. The
/// result names the request that was handed over and says whether the
/// frame was queued; it is not when the connection's receiving half is
/// gone. A failure is an answer, not an error: the caller takes the peer
/// for dead.
pub fn send_request(tx: &Tx, message: SwapRequest) -> (reply: Reply)
    ensures
        reply.request == message,
{
    let frame = encode_request(message);
    assert(frame@ == request_bytes(message));
    let outcome = enqueue_binary(tx, frame);
    reply_of(message, &outcome)
}

} // verus!
