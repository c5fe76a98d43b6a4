//! The highest and the lowest price seen since an anchor.

use vstd::prelude::*;
use crate::fixed::Fixed;

verus! {

/// Running maximum and minimum of the prices observed since the tracker was last reset.
#[derive(Clone, Copy, Debug, PartialEq, Eq, Structural)]
pub struct ExtremaTracker {
    pub max_since_event: Fixed,
    pub min_since_event: Fixed,
}

/// A tracker that has seen `price` and nothing else.
pub open spec fn tracker_at(price: Fixed) -> ExtremaTracker {
    ExtremaTracker { max_since_event: price, min_since_event: price }
}

/// The tracker `tracker` once it has also seen `price`.
pub open spec fn tracker_with(tracker: ExtremaTracker, price: Fixed) -> ExtremaTracker {
    ExtremaTracker {
        max_since_event: if tracker.max_since_event@ >= price@ {
            tracker.max_since_event
        } else {
            price
        },
        min_since_event: if tracker.min_since_event@ <= price@ {
            tracker.min_since_event
        } else {
            price
        },
    }
}

impl ExtremaTracker {
    /// Whether `price` lies between the tracked minimum and maximum.
    pub open spec fn encloses(self, price: Fixed) -> bool {
        self.min_since_event@ <= price@ <= self.max_since_event@
    }

    /// A tracker anchored at `price`.
    pub fn new(price: Fixed) -> (r: ExtremaTracker)
        ensures
            r == tracker_at(price),
            r.encloses(price),
    {
        ExtremaTracker { max_since_event: price, min_since_event: price }
    }

    /// Takes one more price into the running maximum and minimum.
    pub fn observe(&mut self, price: Fixed)
        ensures
            *final(self) == tracker_with(*old(self), price),
            final(self).encloses(price),
    {
        self.max_since_event = self.max_since_event.max(price);
        self.min_since_event = self.min_since_event.min(price);
    }

    /// Starts a new observation window at `price`.
    pub fn reset(&mut self, price: Fixed)
        ensures
            *final(self) == tracker_at(price),
            final(self).encloses(price),
    {
        self.max_since_event = price;
        self.min_since_event = price;
    }
}

/// What has been seen once `price` was added: every price that `tracker` has seen leaves
/// the new bounds at least as wide, and `price` itself lies within them.
pub proof fn lemma_observe_widens(tracker: ExtremaTracker, price: Fixed, earlier: Fixed)
    requires
        tracker.encloses(earlier),
    ensures
        tracker_with(tracker, price).encloses(earlier),
        tracker_with(tracker, price).encloses(price),
{
}

} // verus!
