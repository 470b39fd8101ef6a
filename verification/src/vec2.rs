use vstd::prelude::*;

verus! {

/// Largest coordinate magnitude accepted for user-supplied positions, sizes
/// and motions.  Keeping inputs within this bound guarantees that every sum
/// and difference the engine forms (box corners, Minkowski sums, widened and
/// motion-expanded boxes) stays far inside the `i64` range.
pub const MAX_COORD: i64 = 0x1_0000_0000;

/// Internal headroom bound for derived boxes (Minkowski sums, widened and
/// motion-expanded boxes).  Any box whose fields stay within this bound has
/// corners, and slab numerators formed from them, that fit in `i64` with
/// room to spare; values derived from `MAX_COORD`-bounded inputs stay far
/// below it.
pub const GEOM_LIMIT: i64 = 0x1000_0000_0000_0000;

/// Magnitude of the absolute value of an integer.
pub open spec fn int_abs(v: int) -> int {
    if v >= 0 {
        v
    } else {
        -v
    }
}

/// Sign of an integer: -1, 0 or 1.
pub open spec fn int_sign(v: int) -> int {
    if v > 0 {
        1int
    } else if v < 0 {
        -1int
    } else {
        0int
    }
}

/// A 2D vector with integer components; the engine's positions, sizes,
/// motions and surface normals are all values of this type.
#[derive(Clone, Copy, Debug, PartialEq, Eq, Structural)]
pub struct Vec2 {
    pub x: i64,
    pub y: i64,
}

impl Vec2 {
    /// Both components have magnitude at most `b`.
    pub open spec fn abs_le(self, b: int) -> bool {
        &&& -b <= self.x <= b
        &&& -b <= self.y <= b
    }

    /// Both components are zero.
    pub open spec fn is_zero(self) -> bool {
        self.x == 0 && self.y == 0
    }

    pub fn new(x: i64, y: i64) -> (r: Self)
        ensures
            r.x == x,
            r.y == y,
    {
        Vec2 { x, y }
    }

    /// The vector with both components equal to `v`.
    pub fn splat(v: i64) -> (r: Self)
        ensures
            r.x == v,
            r.y == v,
    {
        Vec2 { x: v, y: v }
    }

    /// The zero vector.
    pub fn zero() -> (r: Self)
        ensures
            r.x == 0,
            r.y == 0,
    {
        Vec2 { x: 0, y: 0 }
    }
}

} // verus!
