use vstd::prelude::*;

verus! {

/// Strict order on queue keys `(priority, sequence)`: the smaller priority
/// value first, then the earlier sequence number.
pub open spec fn key_lt(a: (u64, u64), b: (u64, u64)) -> bool {
    a.0 < b.0 || (a.0 == b.0 && a.1 < b.1)
}

/// The sort key of a queued item.
#[derive(PartialEq, Eq, Structural, Clone, Copy, Debug)]
pub struct MapKey {
    pub priority: u64,
    pub sequence: u64,
}

impl MapKey {
    pub open spec fn view(&self) -> (u64, u64) {
        (self.priority, self.sequence)
    }

    /// Compares by priority first, then by sequence number.
    pub fn cmp(&self, other: &MapKey) -> (r: std::cmp::Ordering)
        ensures
            (r == std::cmp::Ordering::Less) == key_lt(self@, other@),
            (r == std::cmp::Ordering::Greater) == key_lt(other@, self@),
            (r == std::cmp::Ordering::Equal) == (self@ == other@),
    {
        if self.priority < other.priority {
            std::cmp::Ordering::Less
        } else if self.priority > other.priority {
            std::cmp::Ordering::Greater
        } else if self.sequence < other.sequence {
            std::cmp::Ordering::Less
        } else if self.sequence > other.sequence {
            std::cmp::Ordering::Greater
        } else {
            std::cmp::Ordering::Equal
        }
    }

    /// Whether `self` is dequeued before `other`.
    pub fn precedes(&self, other: &MapKey) -> (r: bool)
        ensures
            r == key_lt(self@, other@),
    {
        self.priority < other.priority || (self.priority == other.priority && self.sequence
            < other.sequence)
    }
}

} // verus!
