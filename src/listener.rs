//! Decisions of the reading task that feeds the channel: after each event
//! it either reads the next line or stops.
//!
//! Delivery is a non-blocking attempt: when the channel is full the new
//! measurement is dropped and reading goes on, so that a slow consumer never
//! stalls the device link.
use vstd::prelude::*;

verus! {

/// What the reading task observed after its last step.
#[derive(Clone, Copy, Debug, PartialEq, Eq, Structural)]
pub enum ListenerEvent {
    /// A line was read that is not a measurement.
    Skipped,
    /// A decoded measurement was handed to the channel.
    Delivered,
    /// The channel was full: the new measurement was dropped.
    ChannelFull,
    /// The consuming side has gone away.
    ChannelClosed,
    /// The process's output ended.
    StreamEnded,
    /// Reading the next line failed.
    ReadFailed,
}

#[derive(Clone, Copy, Debug, PartialEq, Eq, Structural)]
pub enum ListenerStep {
    ReadNext,
    Stop,
}

/// The events after which the task stops: the consumer is gone, or the
/// process's output can no longer be read. None of them is retried.
pub open spec fn ends_reading(e: ListenerEvent) -> bool {
    e is ChannelClosed || e is StreamEnded || e is ReadFailed
}

pub fn next_step(event: ListenerEvent) -> (r: ListenerStep)
    ensures
        r is Stop <==> ends_reading(event),
{
    match event {
        ListenerEvent::Skipped | ListenerEvent::Delivered | ListenerEvent::ChannelFull => {
            ListenerStep::ReadNext
        },
        ListenerEvent::ChannelClosed | ListenerEvent::StreamEnded | ListenerEvent::ReadFailed => {
            ListenerStep::Stop
        },
    }
}

} // verus!
