use vstd::prelude::*;
use crate::model::{DeviceId, Sample};

verus! {

/// Extension points of a device's poll loop; both do nothing unless an
/// implementation says otherwise.
pub trait Hook: Send + Sync {
    /// Called with the samples of a successful poll before they are published.
    fn before_publish(&self, _dev: &DeviceId, _samples: &mut Vec<Sample>) {
    }

    /// Called after every poll.
    fn after_poll(&self, _dev: &DeviceId, _status: &Result<(), String>) {
    }
}

/// The hook that does nothing.
pub struct NoOpHook;

impl Hook for NoOpHook {

}

} // verus!
