use vstd::prelude::*;
use crate::vec2::Vec2;

verus! {

/// A solid contact recorded on a moving body: the obstacle touched and the
/// surface normal at the time of impact.  Valid only for the step in which
/// it was produced; the contact list is cleared before the next step.
#[derive(Clone, Copy, Debug)]
pub struct Contact {
    pub entity: usize,
    pub normal: Vec2,
}

impl Contact {
    /// The obstacle this contact is against.
    pub fn entity(&self) -> (r: usize)
        ensures
            r == self.entity,
    {
        self.entity
    }

    /// The surface normal at the time of impact.
    pub fn normal(&self) -> (r: Vec2)
        ensures
            r == self.normal,
    {
        self.normal
    }
}

} // verus!
