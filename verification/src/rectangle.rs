use vstd::prelude::*;
use crate::vec2::{int_abs, Vec2};

verus! {

/// A rectangle shape, stored as its full (width, height) size.  The size is
/// always componentwise non-negative: the builder mirrors negative inputs to
/// their absolute value.
#[derive(Clone, Copy, Debug)]
pub struct Rectangle {
    size: Vec2,
}

impl Rectangle {
    /// The stored size.
    pub closed spec fn spec_size(self) -> Vec2 {
        self.size
    }

    /// The size is componentwise non-negative, as every constructed
    /// rectangle's is.
    pub open spec fn wf(self) -> bool {
        &&& self.spec_size().x >= 0
        &&& self.spec_size().y >= 0
    }

    /// A rectangle of size zero.
    pub fn new() -> (r: Self)
        ensures
            r.spec_size().x == 0,
            r.spec_size().y == 0,
            r.wf(),
    {
        Rectangle { size: Vec2 { x: 0, y: 0 } }
    }

    /// Replaces the size; negative components are mirrored to positive.
    pub fn with_size(self, size: Vec2) -> (r: Self)
        requires
            size.x > i64::MIN,
            size.y > i64::MIN,
        ensures
            r.spec_size().x == int_abs(size.x as int),
            r.spec_size().y == int_abs(size.y as int),
            r.wf(),
    {
        let x = if size.x >= 0 {
            size.x
        } else {
            -size.x
        };
        let y = if size.y >= 0 {
            size.y
        } else {
            -size.y
        };
        Rectangle { size: Vec2 { x, y } }
    }

    /// The stored size.
    pub fn size(&self) -> (r: Vec2)
        ensures
            r == self.spec_size(),
    {
        self.size
    }
}

} // verus!
