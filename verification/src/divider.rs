//! Frequency division.
//!
//! A divider fires once every `count` input pulses, letting a fast timer
//! drive a slower consumer.

use vstd::prelude::*;

verus! {

/// A frequency divider: counts input pulses and fires every `count` of them.
pub struct FrequencyDivider {
    /// The number of pulses between two firings.
    count: u64,
    /// The number of pulses since the last firing.
    i: u64,
}

impl FrequencyDivider {
    /// The division factor.
    pub closed spec fn spec_count(&self) -> u64 {
        self.count
    }

    /// The number of pulses accumulated since the last firing.
    pub closed spec fn spec_accumulated(&self) -> u64 {
        self.i
    }

    /// Creates a divider firing once every `count` pulses.
    pub fn new(count: u64) -> (r: Self)
        ensures
            r.spec_count() == count,
            r.spec_accumulated() == 0,
    {
        FrequencyDivider { count, i: 0 }
    }

    /// Returns the division factor.
    pub fn get_count(&self) -> (r: u64)
        ensures
            r == self.spec_count(),
    {
        self.count
    }

    /// Feeds one input pulse.
    ///
    /// Returns `true` exactly when the divider fires, that is when the pulse
    /// completes a full period; the accumulator is then reset.
    pub fn input(&mut self) -> (fired: bool)
        requires
            old(self).spec_accumulated() < u64::MAX,
        ensures
            final(self).spec_count() == old(self).spec_count(),
            fired == (old(self).spec_accumulated() + 1 >= old(self).spec_count()),
            final(self).spec_accumulated() == if fired {
                0u64
            } else {
                (old(self).spec_accumulated() + 1) as u64
            },
    {
        self.i = self.i + 1;
        if self.i >= self.count {
            self.i = 0;
            true
        } else {
            false
        }
    }
}

} // verus!
