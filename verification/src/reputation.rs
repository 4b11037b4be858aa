use vstd::prelude::*;

verus! {

/// Guild reputation, earned from completing missions. It gates recruit
/// quality and mission access.
#[derive(Debug, Clone, Default)]
pub struct Reputation(pub u32);

/// The tier (1 to 5) that a reputation score falls into.
pub open spec fn reputation_tier(score: u32) -> u32 {
    if score < 100 {
        1
    } else if score < 300 {
        2
    } else if score < 600 {
        3
    } else if score < 1000 {
        4
    } else {
        5
    }
}

impl Reputation {
    /// The reputation tier: 1 below 100, 2 below 300, 3 below 600, 4 below
    /// 1000 and 5 from 1000 on.
    pub fn tier(&self) -> (t: u32)
        ensures
            t == reputation_tier(self.0),
            1 <= t <= 5,
    {
        if self.0 < 100 {
            1
        } else if self.0 < 300 {
            2
        } else if self.0 < 600 {
            3
        } else if self.0 < 1000 {
            4
        } else {
            5
        }
    }
}

} // verus!
