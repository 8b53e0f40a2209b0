use crossbeam::channel::{Receiver, Sender};
use vstd::prelude::*;

use crate::queue::{SendError, TrySendError};

verus! {

#[verifier::external_type_specification]
#[verifier::external_body]
#[verifier::reject_recursive_types(T)]
pub struct ExSender<T>(Sender<T>);

#[verifier::external_type_specification]
#[verifier::external_body]
#[verifier::reject_recursive_types(T)]
pub struct ExReceiver<T>(Receiver<T>);

/// Relies on `crossbeam::channel::unbounded`: a new channel with no capacity
/// limit.
#[verifier::external_body]
fn channel_unbounded<T>() -> (r: (Sender<T>, Receiver<T>)) {
    crossbeam::channel::unbounded()
}

/// Relies on crossbeam's `Sender::send`: it fails only when every receiver
/// is gone, and then hands the message back unchanged.
#[verifier::external_body]
fn channel_send<T>(s: &Sender<T>, msg: T) -> (r: Result<(), T>)
    ensures
        r matches Err(m) ==> m == msg,
{
    s.send(msg).map_err(|e| e.into_inner())
}

/// Relies on crossbeam's `Sender::len`: the number of messages in the
/// channel at some moment of the call.
#[verifier::external_body]
fn channel_len<T>(s: &Sender<T>) -> (r: usize) {
    s.len()
}

/// Whether a sender with soft capacity `limit` that observed `observed_len`
/// queued messages takes one more.
pub open spec fn has_room(observed_len: usize, limit: usize) -> bool {
    observed_len < limit
}

/// The sending end of an unbounded channel with a soft capacity: `try_send`
/// refuses when it finds the queue at or over the limit, `force_send` never
/// does. The capacity is loose: concurrent senders may pass the length check
/// together. A closed sender refuses every send.
#[verifier::reject_recursive_types(T)]
pub struct LooseBoundedSender<T> {
    sender: Sender<T>,
    limit: usize,
    connected: bool,
}

/// A loosely bounded channel with soft capacity `cap`.
pub fn loose_bounded<T>(cap: usize) -> (r: (LooseBoundedSender<T>, Receiver<T>))
    ensures
        r.0.limit() == cap,
        r.0.is_open(),
{
    let (sender, receiver) = channel_unbounded();
    (LooseBoundedSender { sender, limit: cap, connected: true }, receiver)
}

impl<T> LooseBoundedSender<T> {
    pub closed spec fn limit(&self) -> usize {
        self.limit
    }

    pub closed spec fn is_open(&self) -> bool {
        self.connected
    }

    /// Sends `msg` whatever the queue length; fails, handing the message
    /// back, when the sender was closed or the receivers are gone.
    pub fn force_send(&mut self, msg: T) -> (r: Result<(), SendError<T>>)
        ensures
            *final(self) == *old(self),
            !old(self).is_open() ==> r == Err::<(), SendError<T>>(SendError(msg)),
            r matches Err(SendError(m)) ==> m == msg,
    {
        if !self.connected {
            return Err(SendError(msg));
        }
        match channel_send(&self.sender, msg) {
            Ok(()) => Ok(()),
            Err(m) => Err(SendError(m)),
        }
    }

    /// Sends `msg` unless the queue is found at or over the limit; on any
    /// failure the message comes back in the error. What happens for each
    /// observed length is stated by `try_send_observed`.
    pub fn try_send(&mut self, msg: T) -> (r: Result<(), TrySendError<T>>)
        ensures
            *final(self) == *old(self),
            !old(self).is_open() ==> r == Err::<(), TrySendError<T>>(
                TrySendError::Disconnected(msg)),
            r matches Err(TrySendError::Full(m)) ==> m == msg && old(self).is_open(),
            r matches Err(TrySendError::Disconnected(m)) ==> m == msg,
    {
        if !self.connected {
            return Err(TrySendError::Disconnected(msg));
        }
        let observed = channel_len(&self.sender);
        self.try_send_observed(msg, observed)
    }

    /// `try_send` once the queue length `observed_len` has been read: a closed
    /// sender refuses as disconnected, a queue at or over the limit refuses
    /// as full, and otherwise the message goes to the channel, which fails
    /// only when the receivers are gone.
    pub fn try_send_observed(&mut self, msg: T, observed_len: usize) -> (r: Result<
        (),
        TrySendError<T>,
    >)
        ensures
            *final(self) == *old(self),
            !old(self).is_open() ==> r == Err::<(), TrySendError<T>>(
                TrySendError::Disconnected(msg)),
            old(self).is_open() && !has_room(observed_len, old(self).limit()) ==> r == Err::<
                (),
                TrySendError<T>,
            >(TrySendError::Full(msg)),
            old(self).is_open() && has_room(observed_len, old(self).limit()) ==> (r is Ok || r
                == Err::<(), TrySendError<T>>(TrySendError::Disconnected(msg))),
    {
        if !self.connected {
            return Err(TrySendError::Disconnected(msg));
        }
        if observed_len >= self.limit {
            return Err(TrySendError::Full(msg));
        }
        match channel_send(&self.sender, msg) {
            Ok(()) => Ok(()),
            Err(m) => Err(TrySendError::Disconnected(m)),
        }
    }

    /// The number of queued messages, as seen at the moment of the call.
    pub fn len(&self) -> (r: usize) {
        channel_len(&self.sender)
    }

    pub fn is_empty(&self) -> (r: bool) {
        channel_len(&self.sender) == 0
    }

    /// Closes this sender: every later send fails.
    pub fn close_sender(&mut self)
        ensures
            !final(self).is_open(),
            final(self).limit() == old(self).limit(),
    {
        self.connected = false;
    }

    pub fn is_sender_connected(&self) -> (r: bool)
        ensures
            r == self.is_open(),
    {
        self.connected
    }
}

} // verus!
