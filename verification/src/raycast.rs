use vstd::prelude::*;
use crate::ray::Hit;
use crate::vec2::Vec2;

verus! {

/// A persistent ray query: a direction (whose length bounds the tested
/// distance), an offset from the anchoring world position, and the hits
/// collected in the current step.  The hit list is cleared and rebuilt
/// every step.
pub struct Raycast {
    pub direction: Vec2,
    pub offset: Vec2,
    pub hits: Vec<(usize, Hit)>,
}

impl Raycast {
    pub fn new() -> (r: Self)
        ensures
            r.direction.x == 0,
            r.direction.y == 0,
            r.offset.x == 0,
            r.offset.y == 0,
            r.hits@ == Seq::<(usize, Hit)>::empty(),
    {
        Raycast { direction: Vec2 { x: 0, y: 0 }, offset: Vec2 { x: 0, y: 0 }, hits: Vec::new() }
    }

    pub fn with_direction(self, direction: Vec2) -> (r: Self)
        ensures
            r.direction == direction,
            r.offset == self.offset,
            r.hits@ == self.hits@,
    {
        Raycast { direction, offset: self.offset, hits: self.hits }
    }

    pub fn with_offset(self, offset: Vec2) -> (r: Self)
        ensures
            r.direction == self.direction,
            r.offset == offset,
            r.hits@ == self.hits@,
    {
        Raycast { direction: self.direction, offset, hits: self.hits }
    }

    /// The hits collected in the current step, as (obstacle, hit record)
    /// pairs in obstacle iteration order.
    pub fn get_hits(&self) -> (r: Vec<(usize, Hit)>)
        ensures
            r@ == self.hits@,
    {
        let mut out: Vec<(usize, Hit)> = Vec::new();
        let mut i: usize = 0;
        while i < self.hits.len()
            invariant
                0 <= i <= self.hits@.len(),
                out@ == self.hits@.take(i as int),
            decreases self.hits@.len() - i,
        {
            out.push(self.hits[i]);
            proof {
                assert(self.hits@.take(i + 1 as int) =~= self.hits@.take(i as int).push(
                    self.hits@[i as int],
                ));
            }
            i = i + 1;
        }
        proof {
            assert(self.hits@.take(self.hits@.len() as int) =~= self.hits@);
        }
        out
    }

    /// A ray is colliding exactly when its current hit list is non-empty.
    pub fn is_colliding(&self) -> (r: bool)
        ensures
            r == (self.hits@.len() > 0),
    {
        self.hits.len() > 0
    }
}

} // verus!
