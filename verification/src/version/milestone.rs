//! Milestones of Chrome: the major version numbers of its releases.

use vstd::prelude::*;

verus! {

/// A milestone, such as 113.
#[derive(Clone, Copy, Debug, PartialEq, Eq, Structural)]
pub struct Milestone(pub u32);

impl Milestone {
    pub fn new(milestone: u32) -> (r: Self)
        ensures
            r.0 == milestone,
    {
        Self(milestone)
    }
}

} // verus!
