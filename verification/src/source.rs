use vstd::prelude::*;
use crate::model::{DeviceId, Sample, Tag, Value};

verus! {

/// The tags one poll reads.
#[derive(Debug)]
pub struct PollRequest {
    pub tags: Vec<Tag>,
}

/// The samples one poll produced.
#[derive(Debug)]
pub struct PollOutcome {
    pub samples: Vec<Sample>,
    pub device_id: DeviceId,
}

/// One value to write to one tag.
#[derive(Debug)]
pub struct WriteRequest {
    pub tag: Tag,
    pub value: Value,
}

/// Whether a source can currently talk to its device.
#[derive(Debug)]
pub enum SourceHealth {
    Connected,
    Disconnected { reason: String },
}

} // verus!
