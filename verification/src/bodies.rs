use vstd::prelude::*;
use crate::contact::Contact;
use crate::rectangle::Rectangle;
use crate::vec2::Vec2;

verus! {

/// A moving body: its shape, its intended per-step displacement, and the
/// contacts recorded while solving the current step.  The world position is
/// owned by the surrounding simulation and passed alongside.
pub struct KinematicBody {
    pub shape: Rectangle,
    pub motion: Vec2,
    pub contacts: Vec<Contact>,
}

impl KinematicBody {
    pub fn new(shape: Rectangle) -> (r: Self)
        ensures
            r.shape == shape,
            r.motion.x == 0,
            r.motion.y == 0,
            r.contacts@ == Seq::<Contact>::empty(),
    {
        KinematicBody { shape, motion: Vec2::zero(), contacts: Vec::new() }
    }

    /// The contacts recorded during the current step.
    pub fn get_contacts(&self) -> (r: Vec<Contact>)
        ensures
            r@ == self.contacts@,
    {
        let mut out: Vec<Contact> = Vec::new();
        let mut i: usize = 0;
        while i < self.contacts.len()
            invariant
                0 <= i <= self.contacts@.len(),
                out@ == self.contacts@.take(i as int),
            decreases self.contacts@.len() - i,
        {
            out.push(self.contacts[i]);
            proof {
                assert(self.contacts@.take(i + 1 as int) =~= self.contacts@.take(i as int).push(
                    self.contacts@[i as int],
                ));
            }
            i = i + 1;
        }
        proof {
            assert(self.contacts@.take(self.contacts@.len() as int) =~= self.contacts@);
        }
        out
    }
}

/// A static obstacle: a shape at a world position owned by the surrounding
/// simulation.  Immutable during a physics step.
pub struct StaticBody {
    pub shape: Rectangle,
}

impl StaticBody {
    pub fn new(shape: Rectangle) -> (r: Self)
        ensures
            r.shape == shape,
    {
        StaticBody { shape }
    }
}

/// An intended displacement, set by the surrounding simulation before a
/// step.
#[derive(Clone, Copy, Debug)]
pub struct Movable {
    pub motion: Vec2,
}

impl Movable {
    pub fn new() -> (r: Self)
        ensures
            r.motion.x == 0,
            r.motion.y == 0,
    {
        Movable { motion: Vec2 { x: 0, y: 0 } }
    }

    pub fn with_motion(self, value: Vec2) -> (r: Self)
        ensures
            r.motion == value,
    {
        Movable { motion: value }
    }
}

} // verus!
