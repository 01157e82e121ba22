//! The bounded channel between the reading task and the consumer loop.
//!
//! Both ends are used without waiting: the reading task offers each
//! measurement once and drops it when the buffer is full, and the consumer
//! takes whatever is buffered at the start of a frame.
use crate::history::{pushes_model, App};
use crate::listener::ListenerEvent;
use tokio::sync::mpsc::error::TrySendError;
use tokio::sync::mpsc::{Receiver, Sender};
use vstd::prelude::*;

verus! {

#[verifier::external_type_specification]
#[verifier::external_body]
#[verifier::reject_recursive_types(T)]
pub struct ExReceiver<T>(Receiver<T>);

#[verifier::external_type_specification]
#[verifier::external_body]
#[verifier::reject_recursive_types(T)]
pub struct ExSender<T>(Sender<T>);

/// Relies on tokio's `Receiver::try_recv`: returns the next buffered
/// message without waiting, or nothing when the channel is empty or
/// disconnected. What it returns depends on the other task.
#[verifier::external_body]
fn take_pending<T>(rx: &mut Receiver<Vec<T>>) -> Option<Vec<T>> {
    rx.try_recv().ok()
}

/// Relies on tokio's `Sender::try_send`: the message is either buffered, or
/// refused because the buffer is full or the receiving half is closed.
#[verifier::external_body]
fn offer<T>(tx: &Sender<Vec<T>>, m: Vec<T>) -> (r: ListenerEvent)
    ensures
        r is Delivered || r is ChannelFull || r is ChannelClosed,
{
    match tx.try_send(m) {
        Ok(()) => ListenerEvent::Delivered,
        Err(TrySendError::Full(_)) => ListenerEvent::ChannelFull,
        Err(TrySendError::Closed(_)) => ListenerEvent::ChannelClosed,
    }
}

/// Hands the result of decoding one line to the channel: a line that is
/// not a measurement is skipped, a measurement is offered without waiting.
pub fn forward<T>(tx: &Sender<Vec<T>>, decoded: Option<Vec<T>>) -> (r: ListenerEvent)
    ensures
        decoded is None ==> r is Skipped,
        decoded is Some ==> (r is Delivered || r is ChannelFull || r is ChannelClosed),
{
    match decoded {
        None => ListenerEvent::Skipped,
        Some(m) => offer(tx, m),
    }
}

impl<T> App<T> {
    /// Takes every measurement buffered in the channel and pushes them in
    /// arrival order. Stops early only when sequence numbers run out.
    /// Returns how many were taken.
    pub fn drain_channel(&mut self, rx: &mut Receiver<Vec<T>>) -> (taken: u64)
        requires
            old(self).wf(),
        ensures
            final(self).wf(),
            final(self).next_sequence == old(self).next_sequence + taken,
            exists|ms: Seq<Seq<T>>|
                ms.len() == taken && final(self).window() == #[trigger] pushes_model(
                    old(self).window(),
                    old(self).next_sequence as int,
                    ms,
                ),
            final(self).counter == old(self).counter,
            final(self).should_quit == old(self).should_quit,
    {
        let room: u64 = u64::MAX - self.next_sequence;
        let mut pending: Vec<Vec<T>> = Vec::new();
        let mut n: u64 = 0;
        while n < room
            invariant
                n <= room,
                pending@.len() == n,
            decreases room - n,
        {
            match take_pending(rx) {
                Some(m) => {
                    pending.push(m);
                    n = n + 1;
                },
                None => {
                    break;
                },
            }
        }
        self.drain_into(pending);
        n
    }
}

} // verus!
