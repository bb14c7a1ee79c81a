//! The outbound side of a connection: an unbounded queue of websocket
//! messages that a writer task drains towards the client. The queue is
//! tokio's and the messages are axum's. Nothing in this file is proved: what
//! it says of them is taken from their sources.

use axum::extract::ws::Message;
use tokio::sync::mpsc::UnboundedSender;
use vstd::prelude::*;

verus! {

/// `tokio::sync::mpsc::UnboundedSender`, the sending half of an unbounded
/// queue. It is carried as a handle; nothing is said of what is inside.
#[verifier::external_type_specification]
#[verifier::external_body]
#[verifier::reject_recursive_types(T)]
pub struct ExUnboundedSender<T>(UnboundedSender<T>);

/// `axum::extract::ws::Message`, a websocket message. It only names what the
/// queue carries; nothing is said of what is inside.
#[verifier::external_type_specification]
#[verifier::external_body]
pub struct ExMessage(Message);

/// The sending half of one participant's outbound queue.
pub type Outbound = UnboundedSender<Message>;

/// The text message that carries `payload`, through `Message::Text`.
#[verifier::external_body]
pub(crate) fn text_message(payload: &str) -> (message: Message) {
    Message::Text(payload.to_owned())
}

/// The message that closes a connection, through `Message::Close` without a
/// frame.
#[verifier::external_body]
pub(crate) fn close_message() -> (message: Message) {
    Message::Close(None)
}

/// Queues `message` on `tx`, through `UnboundedSender::send`. The call does
/// not wait. The answer is `true` when the message was queued and `false`
/// when the receiving half is closed or dropped. Nothing is claimed about
/// which of the two happens: that depends on the receiver.
#[verifier::external_body]
pub(crate) fn send(tx: &Outbound, message: Message) -> (queued: bool) {
    tx.send(message).is_ok()
}

/// A second handle on the same queue, through `UnboundedSender::clone`, which
/// copies the reference to the queue and nothing else. Two handles are equal
/// when they lead to the same queue, so the copy equals `tx`.
#[verifier::external_body]
pub(crate) fn clone_outbound(tx: &Outbound) -> (copy: Outbound)
    ensures
        copy == *tx,
{
    tx.clone()
}

} // verus!
