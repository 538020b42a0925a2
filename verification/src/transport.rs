//! Trusted bindings to the message-channel crates: bounded multi-producer
//! channels for directory requests and action/reply hand-off, and one-shot
//! channels for per-request replies.
//!
//! What a receive returns depends on what another thread sent, so these
//! contracts state only what holds of every outcome: which error stands for
//! a gone peer, and nothing about the carried values.  Everything about the
//! values themselves is proved in the verified callers that produce and
//! consume them.

use vstd::prelude::*;

use crate::Error;

verus! {

#[verifier::external_type_specification]
#[verifier::external_body]
#[verifier::reject_recursive_types(T)]
pub struct ExSender<T>(crossbeam::channel::Sender<T>);

#[verifier::external_type_specification]
#[verifier::external_body]
#[verifier::reject_recursive_types(T)]
pub struct ExReceiver<T>(crossbeam::channel::Receiver<T>);

#[verifier::external_type_specification]
#[verifier::external_body]
#[verifier::reject_recursive_types(T)]
pub struct ExOneshotSender<T>(oneshot::Sender<T>);

#[verifier::external_type_specification]
#[verifier::external_body]
#[verifier::reject_recursive_types(T)]
pub struct ExOneshotReceiver<T>(oneshot::Receiver<T>);

#[verifier::external_type_specification]
#[verifier::external_body]
pub struct ExOneshotRecvError(oneshot::RecvError);

/// Outcome of one non-blocking poll of a receiver.
pub enum PollOutcome<T> {
    Received(T),
    Empty,
    Disconnected,
}

/// Relies on crossbeam_channel::bounded: a channel holding at most `cap`
/// in-flight messages, FIFO per sender; a send blocks while it is full.
#[verifier::external_body]
pub fn channel_bounded<T>(cap: usize) -> (r: (
    crossbeam::channel::Sender<T>,
    crossbeam::channel::Receiver<T>,
)) {
    crossbeam::channel::bounded(cap)
}

/// Relies on crossbeam_channel::Sender::send: blocks until the message is
/// placed in the channel, and fails exactly when every receiver is gone.
#[verifier::external_body]
pub fn channel_send<T>(s: &crossbeam::channel::Sender<T>, message: T) -> (r: Result<(), Error>)
    ensures
        r matches Err(e) ==> e == Error::Disconnected,
{
    match s.send(message) {
        Ok(()) => Ok(()),
        Err(_) => Err(Error::Disconnected),
    }
}

/// Relies on crossbeam_channel::Sender::clone: the clone feeds the same
/// channel as the original handle.
#[verifier::external_body]
pub fn channel_sender_clone<T>(s: &crossbeam::channel::Sender<T>) -> (r: crossbeam::channel::Sender<
    T,
>) {
    s.clone()
}

/// Relies on crossbeam_channel::Receiver::recv: blocks until a message
/// arrives, failing exactly when the channel is empty and every sender is
/// gone.
#[verifier::external_body]
pub fn channel_recv<T>(r: &crossbeam::channel::Receiver<T>) -> (out: Result<T, Error>)
    ensures
        out matches Err(e) ==> e == Error::Disconnected,
{
    match r.recv() {
        Ok(v) => Ok(v),
        Err(_) => Err(Error::Disconnected),
    }
}

/// Relies on crossbeam_channel::Receiver::try_recv: never blocks; reports
/// either a ready message, an empty channel, or a disconnected one.
#[verifier::external_body]
pub fn channel_try_recv<T>(r: &crossbeam::channel::Receiver<T>) -> (out: PollOutcome<T>) {
    match r.try_recv() {
        Ok(v) => PollOutcome::Received(v),
        Err(crossbeam::channel::TryRecvError::Empty) => PollOutcome::Empty,
        Err(crossbeam::channel::TryRecvError::Disconnected) => PollOutcome::Disconnected,
    }
}

/// Relies on oneshot::channel: a fresh sender/receiver pair carrying one
/// message.
#[verifier::external_body]
pub fn oneshot_pair<T>() -> (r: (oneshot::Sender<T>, oneshot::Receiver<T>)) {
    oneshot::channel()
}

/// Relies on oneshot::Sender::send: delivers the single message, failing
/// exactly when the receiver is already gone.
#[verifier::external_body]
pub fn oneshot_send<T>(s: oneshot::Sender<T>, message: T) -> (r: Result<(), Error>)
    ensures
        r matches Err(e) ==> e == Error::Disconnected,
{
    match s.send(message) {
        Ok(()) => Ok(()),
        Err(_) => Err(Error::Disconnected),
    }
}

/// Relies on oneshot::Receiver::recv: blocks until the message arrives,
/// failing exactly when the sender was dropped without sending.
#[verifier::external_body]
pub fn oneshot_recv<T>(r: oneshot::Receiver<T>) -> (out: Result<T, Error>)
    ensures
        out matches Err(e) ==> e == Error::Disconnected,
{
    match r.recv() {
        Ok(v) => Ok(v),
        Err(_) => Err(Error::Disconnected),
    }
}

} // verus!
