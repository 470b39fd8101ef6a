use vstd::prelude::*;
use crate::aabb::Aabb;
use crate::frac::{q_le, q_lt, Frac, Xf};
use crate::vec2::{int_abs, int_sign, Vec2, GEOM_LIMIT};

verus! {

// ---------------------------------------------------------------------------
// Slab method, per axis
//
// For one axis with direction `d`, centre offset `delta` (box centre minus
// ray origin) and extent `e`, the times at which the ray crosses the near
// and far edges of the slab are `(sign(d)*delta - e) / |d|` and
// `(sign(d)*delta + e) / |d|`.  A zero-direction axis never binds: its
// entry is minus infinity and its exit plus infinity, encoded as pairs with
// denominator zero.
// ---------------------------------------------------------------------------

/// Entry time of the slab on one axis, as an extended fraction: the time at
/// which the ray crosses the slab edge nearer to it in direction `d`.
pub open spec fn x_near(d: int, delta: int, e: int) -> (int, int) {
    if d == 0 {
        (-1int, 0int)
    } else if d > 0 {
        (delta - e, d)
    } else {
        (-delta - e, -d)
    }
}

/// Exit time of the slab on one axis, as an extended fraction: the time at
/// which the ray crosses the farther slab edge.
pub open spec fn x_far(d: int, delta: int, e: int) -> (int, int) {
    if d == 0 {
        (1int, 0int)
    } else if d > 0 {
        (delta + e, d)
    } else {
        (-delta + e, -d)
    }
}

/// A ray: a world origin and a direction whose length is the tested
/// displacement (times are fractions of it).
#[derive(Clone, Copy, Debug)]
pub struct Ray {
    pub direction: Vec2,
    pub position: Vec2,
}

/// Per-axis slab entry times for a ray against a box.
pub open spec fn ray_near_x(r: Ray, b: Aabb) -> (int, int) {
    x_near(r.direction.x as int, b.position.x - r.position.x, b.extents.x as int)
}

pub open spec fn ray_near_y(r: Ray, b: Aabb) -> (int, int) {
    x_near(r.direction.y as int, b.position.y - r.position.y, b.extents.y as int)
}

/// Per-axis slab exit times for a ray against a box.
pub open spec fn ray_far_x(r: Ray, b: Aabb) -> (int, int) {
    x_far(r.direction.x as int, b.position.x - r.position.x, b.extents.x as int)
}

pub open spec fn ray_far_y(r: Ray, b: Aabb) -> (int, int) {
    x_far(r.direction.y as int, b.position.y - r.position.y, b.extents.y as int)
}

/// Combined entry time: the later of the two per-axis entries (the x axis
/// wins exact ties, which matters only for the representation).
pub open spec fn ray_entry(r: Ray, b: Aabb) -> (int, int) {
    if q_lt(ray_near_x(r, b), ray_near_y(r, b)) {
        ray_near_y(r, b)
    } else {
        ray_near_x(r, b)
    }
}

/// Combined exit time: the earlier of the two per-axis exits.
pub open spec fn ray_exit(r: Ray, b: Aabb) -> (int, int) {
    if q_lt(ray_far_y(r, b), ray_far_x(r, b)) {
        ray_far_y(r, b)
    } else {
        ray_far_x(r, b)
    }
}

/// Whether the ray hits the box: the per-axis intervals overlap crosswise,
/// the combined entry is strictly before the end of the displacement
/// (time 1), and the combined exit is strictly after time 0.  A ray with a
/// zero direction vector hits nothing.
pub open spec fn ray_hits(r: Ray, b: Aabb) -> bool {
    &&& !r.direction.is_zero()
    &&& !q_lt(ray_far_y(r, b), ray_near_x(r, b))
    &&& !q_lt(ray_far_x(r, b), ray_near_y(r, b))
    &&& q_lt(ray_entry(r, b), (1int, 1int))
    &&& q_lt((0int, 1int), ray_exit(r, b))
}

/// The reported hit time: the combined entry clamped to at least zero.
pub open spec fn ray_hit_time(r: Ray, b: Aabb) -> (int, int) {
    if q_lt(ray_entry(r, b), (0int, 1int)) {
        (0int, 1int)
    } else {
        ray_entry(r, b)
    }
}

/// The reported surface normal: opposite the direction's sign on whichever
/// axis entered strictly later; an exact tie between the axes reports a
/// zero normal, the mark of a corner (diagonal) hit.
pub open spec fn ray_hit_normal(r: Ray, b: Aabb) -> (int, int) {
    if q_lt(ray_near_y(r, b), ray_near_x(r, b)) {
        (-int_sign(r.direction.x as int), 0int)
    } else if q_lt(ray_near_x(r, b), ray_near_y(r, b)) {
        (0int, -int_sign(r.direction.y as int))
    } else {
        (0int, 0int)
    }
}

/// Every reported hit time lies in `[0, 1)`: the time-1 boundary is
/// exclusive (a box first reached at or beyond the full displacement is no
/// hit at all), and times are clamped to at least zero.
pub proof fn lemma_ray_hit_time_bounds(r: Ray, b: Aabb)
    requires
        ray_hits(r, b),
    ensures
        q_le((0int, 1int), ray_hit_time(r, b)),
        q_lt(ray_hit_time(r, b), (1int, 1int)),
{
}

/// The record of a hit: the entry time, in `[0, 1)` as a fraction of the
/// tested displacement, and the surface normal (a unit axis vector, or zero
/// for a corner hit).
#[derive(Clone, Copy, Debug)]
pub struct Hit {
    pub time: Frac,
    pub normal: Vec2,
}

/// The slab entry time of one axis, as an executable extended fraction.
pub(crate) fn axis_near(d: i64, bpos: i64, rpos: i64, e: i64) -> (r: Xf)
    requires
        int_abs(d as int) <= GEOM_LIMIT as int,
        int_abs(bpos as int) <= GEOM_LIMIT as int,
        int_abs(rpos as int) <= GEOM_LIMIT as int,
        int_abs(e as int) <= GEOM_LIMIT as int,
    ensures
        r.q() == x_near(d as int, bpos - rpos, e as int),
        r.is_near(),
{
    if d == 0 {
        Xf { num: -1, den: 0 }
    } else if d > 0 {
        Xf { num: bpos - rpos - e, den: d }
    } else {
        Xf { num: rpos - bpos - e, den: -d }
    }
}

/// The slab exit time of one axis, as an executable extended fraction.
pub(crate) fn axis_far(d: i64, bpos: i64, rpos: i64, e: i64) -> (r: Xf)
    requires
        int_abs(d as int) <= GEOM_LIMIT as int,
        int_abs(bpos as int) <= GEOM_LIMIT as int,
        int_abs(rpos as int) <= GEOM_LIMIT as int,
        int_abs(e as int) <= GEOM_LIMIT as int,
    ensures
        r.q() == x_far(d as int, bpos - rpos, e as int),
        r.is_far(),
{
    if d == 0 {
        Xf { num: 1, den: 0 }
    } else if d > 0 {
        Xf { num: bpos - rpos + e, den: d }
    } else {
        Xf { num: rpos - bpos + e, den: -d }
    }
}

/// Minus the sign of a value: -1, 0 or 1.
pub(crate) fn neg_sign(v: i64) -> (r: i64)
    ensures
        r == -int_sign(v as int),
{
    if v > 0 {
        -1
    } else if v < 0 {
        1
    } else {
        0
    }
}

impl Ray {
    pub fn new(direction: Vec2, position: Vec2) -> (r: Self)
        ensures
            r.direction == direction,
            r.position == position,
    {
        Ray { direction, position }
    }

    /// The world-space ray of a ray query anchored at `position`: the
    /// query's direction, from the anchor displaced by the query's offset.
    pub fn from_ray(raycast: &crate::raycast::Raycast, position: Vec2) -> (r: Self)
        requires
            i64::MIN <= position.x + raycast.offset.x <= i64::MAX,
            i64::MIN <= position.y + raycast.offset.y <= i64::MAX,
        ensures
            r.direction == raycast.direction,
            r.position.x == position.x + raycast.offset.x,
            r.position.y == position.y + raycast.offset.y,
    {
        Ray {
            direction: raycast.direction,
            position: Vec2 {
                x: position.x + raycast.offset.x,
                y: position.y + raycast.offset.y,
            },
        }
    }

    /// Slab ray-box intersection.  Returns the entry time (clamped to at
    /// least zero, strictly below one) and the surface normal of the face
    /// entered, or `None` when the ray misses the box, starts past it, or
    /// would only reach it at or beyond the end of the displacement.
    pub fn intersect_aabb(self, other: Aabb) -> (r: Option<Hit>)
        requires
            self.direction.abs_le(GEOM_LIMIT as int),
            self.position.abs_le(GEOM_LIMIT as int),
            other.abs_le(GEOM_LIMIT as int),
        ensures
            match r {
                None => !ray_hits(self, other),
                Some(h) => {
                    &&& ray_hits(self, other)
                    &&& h.time.q() == ray_hit_time(self, other)
                    &&& (h.normal.x as int, h.normal.y as int) == ray_hit_normal(self, other)
                    &&& h.time.valid()
                    &&& 0 <= h.time.num < h.time.den
                },
            },
    {
        if self.direction.x == 0 && self.direction.y == 0 {
            return None;
        }

        let nx = axis_near(self.direction.x, other.position.x, self.position.x, other.extents.x);
        let fx = axis_far(self.direction.x, other.position.x, self.position.x, other.extents.x);
        let ny = axis_near(self.direction.y, other.position.y, self.position.y, other.extents.y);
        let fy = axis_far(self.direction.y, other.position.y, self.position.y, other.extents.y);

        if fy.lt(&nx) || fx.lt(&ny) {
            return None;
        }

        let entry = if nx.lt(&ny) {
            ny
        } else {
            nx
        };
        let exit = if fy.lt(&fx) {
            fy
        } else {
            fx
        };

        let one = Xf { num: 1, den: 1 };
        let zero = Xf { num: 0, den: 1 };
        if !entry.lt(&one) {
            return None;
        }
        if !zero.lt(&exit) {
            return None;
        }

        let time = if entry.lt(&zero) {
            Frac::zero()
        } else {
            Frac::new(entry.num, entry.den)
        };

        let mut normal = Vec2::zero();
        if ny.lt(&nx) {
            normal.x = neg_sign(self.direction.x);
        } else if nx.lt(&ny) {
            normal.y = neg_sign(self.direction.y);
        }

        Some(Hit { time, normal })
    }
}

} // verus!
