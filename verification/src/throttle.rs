//! The throttler that bounds the admission of ingress artifacts.

use vstd::prelude::*;

verus! {

/// Admits new ingress artifacts while fewer than `capacity` of them wait.
#[derive(Clone, Copy, Debug, PartialEq, Eq, Structural)]
pub struct IngressThrottler {
    pub capacity: usize,
}

impl IngressThrottler {
    /// Whether the throttler is saturated at the given depth, that is with
    /// `queued` artifacts in the queue and `unvalidated` ones in the pool.
    pub open spec fn saturated(self, queued: nat, unvalidated: nat) -> bool {
        queued + unvalidated >= self.capacity
    }

    /// A throttler with the given capacity.
    pub fn new(capacity: usize) -> (throttler: IngressThrottler)
        ensures
            throttler.capacity == capacity,
    {
        IngressThrottler { capacity }
    }

    /// Whether the number of waiting artifacts has reached the capacity.
    pub fn exceeds_threshold(&self, queued: usize, unvalidated: usize) -> (saturated: bool)
        ensures
            saturated == self.saturated(queued as nat, unvalidated as nat),
    {
        queued >= self.capacity || unvalidated >= self.capacity - queued
    }

    /// Whether an artifact is admitted at the given depth.
    pub fn admits(&self, queued: usize, unvalidated: usize) -> (admitted: bool)
        ensures
            admitted == !self.saturated(queued as nat, unvalidated as nat),
    {
        !self.exceeds_threshold(queued, unvalidated)
    }

    /// Admission is monotonic: once the throttler is saturated at some depth it
    /// is saturated at every depth that is not smaller, and an admission
    /// needs a smaller depth.
    pub proof fn lemma_saturation_monotonic(
        self,
        queued: nat,
        unvalidated: nat,
        later_queued: nat,
        later_unvalidated: nat,
    )
        requires
            self.saturated(queued, unvalidated),
        ensures
            later_queued + later_unvalidated >= queued + unvalidated ==> self.saturated(
                later_queued,
                later_unvalidated,
            ),
            !self.saturated(later_queued, later_unvalidated) ==> later_queued + later_unvalidated
                < queued + unvalidated,
    {
    }
}

} // verus!
