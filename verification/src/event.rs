use vstd::prelude::*;
use crate::model::{clone_samples, DeviceId, DeviceState, LogEntry, Sample};

verus! {

/// What the runtime publishes on its event bus.
#[derive(Debug)]
pub enum Event {
    PollSucceeded(DeviceId, Vec<Sample>),
    PollFailed(DeviceId, String),
    ConnectionStateChanged(DeviceId, bool),
    Log(LogEntry),
    DeviceStatus(DeviceState),
}

impl Clone for Event {
    /// A copy: the same event, the samples of a successful poll copied in order.
    fn clone(&self) -> (r: Self)
        ensures
            self matches Event::PollSucceeded(id, s) ==> (r matches Event::PollSucceeded(id2, s2) && id2 == id
                && s2@ == s@),
            !(self is PollSucceeded) ==> r == *self,
    {
        match self {
            Event::PollSucceeded(id, samples) => Event::PollSucceeded(id.clone(), clone_samples(samples)),
            Event::PollFailed(id, e) => Event::PollFailed(id.clone(), e.clone()),
            Event::ConnectionStateChanged(id, online) => Event::ConnectionStateChanged(id.clone(), *online),
            Event::Log(entry) => Event::Log(entry.clone()),
            Event::DeviceStatus(ds) => Event::DeviceStatus(ds.clone()),
        }
    }
}

} // verus!
