use vstd::prelude::*;
use crate::frac::{half_trunc, half_up, q_le, q_lt, Frac, Xf};
use crate::ray::{axis_far, axis_near, neg_sign, x_far, x_near, Hit, Ray};
use crate::rectangle::Rectangle;
use crate::vec2::{int_abs, int_sign, Vec2, GEOM_LIMIT};

verus! {

/// An axis-aligned bounding box: a centre position and half-extents.
/// Derived and transient, recomputed each step from a body's shape and
/// current position.
#[derive(Clone, Copy, Debug, PartialEq, Eq, Structural)]
pub struct Aabb {
    pub extents: Vec2,
    pub position: Vec2,
}

/// Smallest x coordinate covered by the box.
pub open spec fn min_x(a: Aabb) -> int {
    a.position.x - a.extents.x
}

/// Largest x coordinate covered by the box.
pub open spec fn max_x(a: Aabb) -> int {
    a.position.x + a.extents.x
}

/// Smallest y coordinate covered by the box.
pub open spec fn min_y(a: Aabb) -> int {
    a.position.y - a.extents.y
}

/// Largest y coordinate covered by the box.
pub open spec fn max_y(a: Aabb) -> int {
    a.position.y + a.extents.y
}

/// Strict interval overlap on both axes: boxes touching edge to edge do not
/// overlap.
pub open spec fn overlapping(a: Aabb, b: Aabb) -> bool {
    &&& min_x(a) < max_x(b)
    &&& max_x(a) > min_x(b)
    &&& min_y(a) < max_y(b)
    &&& max_y(a) > min_y(b)
}

/// The overlap on the x axis with the smaller magnitude, measured from `a`'s
/// side: positive pushes `a` to the right of `b`.
pub open spec fn overlap_x(a: Aabb, b: Aabb) -> int {
    let o1 = max_x(b) - min_x(a);
    let o2 = min_x(b) - max_x(a);
    if int_abs(o1) < int_abs(o2) {
        o1
    } else {
        o2
    }
}

/// The overlap on the y axis with the smaller magnitude.
pub open spec fn overlap_y(a: Aabb, b: Aabb) -> int {
    let o1 = max_y(b) - min_y(a);
    let o2 = min_y(b) - max_y(a);
    if int_abs(o1) < int_abs(o2) {
        o1
    } else {
        o2
    }
}

/// The static penetration-depth correction: the per-axis overlap on the
/// dominant (smaller-magnitude) axis only, zero on the other.
pub open spec fn overlap_resolution(a: Aabb, b: Aabb) -> (int, int) {
    let ox = overlap_x(a, b);
    let oy = overlap_y(a, b);
    if int_abs(oy) < int_abs(ox) {
        (0int, oy)
    } else {
        (ox, 0int)
    }
}

// ---------------------------------------------------------------------------
// Swept intersection
//
// Sweeping box `a` along `m` into a static box `b` is the slab ray test
// from the origin, with `m` as the direction, against the Minkowski
// difference box (extents summed, position the offset of `b` from `a`).
// The spec functions below state that test directly over the two boxes.
// ---------------------------------------------------------------------------

/// Per-axis slab entry time of the sweep of `a` along `m` into `b`.
pub open spec fn sweep_near_x(a: Aabb, b: Aabb, m: Vec2) -> (int, int) {
    x_near(m.x as int, b.position.x - a.position.x, a.extents.x + b.extents.x)
}

pub open spec fn sweep_near_y(a: Aabb, b: Aabb, m: Vec2) -> (int, int) {
    x_near(m.y as int, b.position.y - a.position.y, a.extents.y + b.extents.y)
}

/// Per-axis slab exit time of the sweep of `a` along `m` into `b`.
pub open spec fn sweep_far_x(a: Aabb, b: Aabb, m: Vec2) -> (int, int) {
    x_far(m.x as int, b.position.x - a.position.x, a.extents.x + b.extents.x)
}

pub open spec fn sweep_far_y(a: Aabb, b: Aabb, m: Vec2) -> (int, int) {
    x_far(m.y as int, b.position.y - a.position.y, a.extents.y + b.extents.y)
}

/// Combined entry time of the sweep: the later per-axis entry (the x axis
/// wins exact ties, which matters only for the representation).
pub open spec fn sweep_entry(a: Aabb, b: Aabb, m: Vec2) -> (int, int) {
    if q_lt(sweep_near_x(a, b, m), sweep_near_y(a, b, m)) {
        sweep_near_y(a, b, m)
    } else {
        sweep_near_x(a, b, m)
    }
}

/// Combined exit time of the sweep: the earlier per-axis exit.
pub open spec fn sweep_exit(a: Aabb, b: Aabb, m: Vec2) -> (int, int) {
    if q_lt(sweep_far_y(a, b, m), sweep_far_x(a, b, m)) {
        sweep_far_y(a, b, m)
    } else {
        sweep_far_x(a, b, m)
    }
}

/// Whether the sweep of `a` along `m` first touches `b` strictly within the
/// displacement.  A zero motion hits nothing.
pub open spec fn sweep_hits(a: Aabb, b: Aabb, m: Vec2) -> bool {
    &&& !m.is_zero()
    &&& !q_lt(sweep_far_y(a, b, m), sweep_near_x(a, b, m))
    &&& !q_lt(sweep_far_x(a, b, m), sweep_near_y(a, b, m))
    &&& q_lt(sweep_entry(a, b, m), (1int, 1int))
    &&& q_lt((0int, 1int), sweep_exit(a, b, m))
}

/// Time of impact of the sweep: the combined entry clamped to at least zero.
pub open spec fn sweep_time(a: Aabb, b: Aabb, m: Vec2) -> (int, int) {
    if q_lt(sweep_entry(a, b, m), (0int, 1int)) {
        (0int, 1int)
    } else {
        sweep_entry(a, b, m)
    }
}

/// Surface normal of the sweep's hit: opposite the motion's sign on the
/// axis that entered strictly later; an exact tie reports a zero normal (a
/// corner hit).
pub open spec fn sweep_normal(a: Aabb, b: Aabb, m: Vec2) -> (int, int) {
    if q_lt(sweep_near_y(a, b, m), sweep_near_x(a, b, m)) {
        (-int_sign(m.x as int), 0int)
    } else if q_lt(sweep_near_x(a, b, m), sweep_near_y(a, b, m)) {
        (0int, -int_sign(m.y as int))
    } else {
        (0int, 0int)
    }
}

/// Whether `get_hit_info` reports a hit: its miss conditions are that the
/// combined entry lies strictly past the combined exit or strictly past
/// time 1 (it does not test the exit against time 0, and it treats an entry
/// of exactly 1 as a hit).
pub open spec fn hit_info_hits(a: Aabb, b: Aabb, m: Vec2) -> bool {
    &&& !m.is_zero()
    &&& q_le(sweep_entry(a, b, m), sweep_exit(a, b, m))
    &&& q_le(sweep_entry(a, b, m), (1int, 1int))
}

/// The time `get_hit_info` reports: the unclamped combined entry on a hit,
/// and exactly 1 on a miss.
pub open spec fn hit_info_time(a: Aabb, b: Aabb, m: Vec2) -> (int, int) {
    if hit_info_hits(a, b, m) {
        sweep_entry(a, b, m)
    } else {
        (1int, 1int)
    }
}

/// The normal `get_hit_info` reports: unlike the sweep test's, the x axis
/// wins an exact tie between the axes.
pub open spec fn hit_info_normal(a: Aabb, b: Aabb, m: Vec2) -> (int, int) {
    if hit_info_hits(a, b, m) {
        if q_le(sweep_near_y(a, b, m), sweep_near_x(a, b, m)) {
            (-int_sign(m.x as int), 0int)
        } else {
            (0int, -int_sign(m.y as int))
        }
    } else {
        (0int, 0int)
    }
}

impl Aabb {
    /// Both the extents and the position are within magnitude `b`.
    pub open spec fn abs_le(self, b: int) -> bool {
        &&& self.extents.abs_le(b)
        &&& self.position.abs_le(b)
    }

    pub fn new(extents: Vec2, position: Vec2) -> (r: Self)
        ensures
            r.extents == extents,
            r.position == position,
    {
        Aabb { extents, position }
    }

    /// The box of a rectangle shape at a world position: the extents are
    /// half the rectangle's size (odd sizes are halved rounding down).
    pub fn from_rectangle(rectangle: Rectangle, position: Vec2) -> (r: Self)
        requires
            rectangle.wf(),
        ensures
            r.extents.x == rectangle.spec_size().x as int / 2,
            r.extents.y == rectangle.spec_size().y as int / 2,
            r.position == position,
            r.extents.x >= 0,
            r.extents.y >= 0,
    {
        let size = rectangle.size();
        let ex = ((size.x as u64) / 2) as i64;
        let ey = ((size.y as u64) / 2) as i64;
        Aabb { extents: Vec2 { x: ex, y: ey }, position }
    }

    /// The broad-phase bound of a ray query anchored at `position`: a box
    /// covering the ray's segment, centred halfway along it, with each
    /// extent at least one unit so that a ray running exactly along a gap
    /// between obstacles is still considered.
    pub fn from_ray(ray: &crate::raycast::Raycast, position: Vec2) -> (r: Self)
        requires
            ray.direction.abs_le(GEOM_LIMIT as int / 4),
            ray.offset.abs_le(GEOM_LIMIT as int / 4),
            position.abs_le(GEOM_LIMIT as int / 4),
        ensures
            r.extents.x == if half_up(ray.direction.x as int) >= 1 {
                half_up(ray.direction.x as int)
            } else {
                1int
            },
            r.extents.y == if half_up(ray.direction.y as int) >= 1 {
                half_up(ray.direction.y as int)
            } else {
                1int
            },
            r.position.x == position.x + ray.offset.x + half_trunc(ray.direction.x as int),
            r.position.y == position.y + ray.offset.y + half_trunc(ray.direction.y as int),
    {
        let ux = crate::frac::half_up_i64(ray.direction.x);
        let uy = crate::frac::half_up_i64(ray.direction.y);
        let hx = crate::frac::half_trunc_i64(ray.direction.x);
        let hy = crate::frac::half_trunc_i64(ray.direction.y);
        Aabb {
            extents: Vec2 { x: if ux >= 1 { ux } else { 1 }, y: if uy >= 1 { uy } else { 1 } },
            position: Vec2 {
                x: position.x + ray.offset.x + hx,
                y: position.y + ray.offset.y + hy,
            },
        }
    }

    /// The minimum and maximum corners.
    pub fn min_max(&self) -> (r: (Vec2, Vec2))
        requires
            self.abs_le(GEOM_LIMIT as int),
        ensures
            r.0.x == min_x(*self),
            r.0.y == min_y(*self),
            r.1.x == max_x(*self),
            r.1.y == max_y(*self),
    {
        (
            Vec2 { x: self.position.x - self.extents.x, y: self.position.y - self.extents.y },
            Vec2 { x: self.position.x + self.extents.x, y: self.position.y + self.extents.y },
        )
    }

    /// Grows the extents by `value`, clamping them at zero; the position is
    /// unchanged.
    pub fn expand(self, value: Vec2) -> (r: Self)
        requires
            self.extents.abs_le(GEOM_LIMIT as int),
            value.abs_le(GEOM_LIMIT as int),
        ensures
            r.extents.x == if self.extents.x + value.x >= 0 {
                self.extents.x + value.x
            } else {
                0int
            },
            r.extents.y == if self.extents.y + value.y >= 0 {
                self.extents.y + value.y
            } else {
                0int
            },
            r.position == self.position,
    {
        let ex = self.extents.x + value.x;
        let ey = self.extents.y + value.y;
        Aabb {
            extents: Vec2 { x: if ex >= 0 { ex } else { 0 }, y: if ey >= 0 { ey } else { 0 } },
            position: self.position,
        }
    }

    /// Strict overlap test; `true` exactly when the open intervals of the
    /// two boxes intersect on both axes.
    pub fn is_overlapping(&self, other: Aabb) -> (r: bool)
        requires
            self.abs_le(GEOM_LIMIT as int),
            other.abs_le(GEOM_LIMIT as int),
        ensures
            r == overlapping(*self, other),
    {
        let (a_min, a_max) = self.min_max();
        let (b_min, b_max) = other.min_max();
        a_min.x < b_max.x && a_max.x > b_min.x && a_min.y < b_max.y && a_max.y > b_min.y
    }

    /// Strict overlap test under its other name.
    pub fn collide_with(&self, other: Aabb) -> (r: bool)
        requires
            self.abs_le(GEOM_LIMIT as int),
            other.abs_le(GEOM_LIMIT as int),
        ensures
            r == overlapping(*self, other),
    {
        self.is_overlapping(other)
    }

    /// The penetration-depth correction vector: moving `self` by it
    /// separates the boxes along the dominant (smaller-overlap) axis.
    pub fn get_overlap(&self, other: Aabb) -> (r: Vec2)
        requires
            self.abs_le(GEOM_LIMIT as int),
            other.abs_le(GEOM_LIMIT as int),
        ensures
            (r.x as int, r.y as int) == overlap_resolution(*self, other),
    {
        let (a_min, a_max) = self.min_max();
        let (b_min, b_max) = other.min_max();

        let ox1 = b_max.x - a_min.x;
        let ox2 = b_min.x - a_max.x;
        let ox = if abs_i64(ox1) < abs_i64(ox2) {
            ox1
        } else {
            ox2
        };

        let oy1 = b_max.y - a_min.y;
        let oy2 = b_min.y - a_max.y;
        let oy = if abs_i64(oy1) < abs_i64(oy2) {
            oy1
        } else {
            oy2
        };

        if abs_i64(oy) < abs_i64(ox) {
            Vec2 { x: 0, y: oy }
        } else {
            Vec2 { x: ox, y: 0 }
        }
    }

    /// The motion-expanded broad-phase bound: enlarged by half the absolute
    /// displacement (rounded up) on each axis and re-centred by half the
    /// displacement (rounded towards zero).  A cheap superset of the true
    /// swept volume.
    pub fn get_broad(self, motion: Vec2) -> (r: Self)
        requires
            self.abs_le(GEOM_LIMIT as int),
            motion.abs_le(GEOM_LIMIT as int),
        ensures
            r.extents.x == self.extents.x + half_up(motion.x as int),
            r.extents.y == self.extents.y + half_up(motion.y as int),
            r.position.x == self.position.x + half_trunc(motion.x as int),
            r.position.y == self.position.y + half_trunc(motion.y as int),
    {
        let hx = crate::frac::half_trunc_i64(motion.x);
        let hy = crate::frac::half_trunc_i64(motion.y);
        let ux = crate::frac::half_up_i64(motion.x);
        let uy = crate::frac::half_up_i64(motion.y);
        Aabb {
            extents: Vec2 { x: self.extents.x + ux, y: self.extents.y + uy },
            position: Vec2 { x: self.position.x + hx, y: self.position.y + hy },
        }
    }

    /// The Minkowski difference: extents are the sum of both operands'
    /// extents, the position is the offset of `self` relative to `other`.
    /// Sweeping a box into `self` reduces to casting a ray from the origin
    /// against this box.
    pub fn minkowski_diff(self, other: Aabb) -> (r: Self)
        requires
            self.abs_le(GEOM_LIMIT as int),
            other.abs_le(GEOM_LIMIT as int),
        ensures
            r.extents.x == self.extents.x + other.extents.x,
            r.extents.y == self.extents.y + other.extents.y,
            r.position.x == self.position.x - other.position.x,
            r.position.y == self.position.y - other.position.y,
    {
        Aabb {
            extents: Vec2 {
                x: self.extents.x + other.extents.x,
                y: self.extents.y + other.extents.y,
            },
            position: Vec2 {
                x: self.position.x - other.position.x,
                y: self.position.y - other.position.y,
            },
        }
    }

    /// Entry time and face normal of sweeping `self` along `motion` into
    /// `other`, by the slab method on their Minkowski difference.  On a
    /// miss it reports time exactly 1 and a zero normal; the time is not
    /// clamped, so a box already behind the motion reports a negative
    /// entry time.
    pub fn get_hit_info(&self, other: Aabb, motion: Vec2) -> (r: (Frac, Vec2))
        requires
            self.abs_le(GEOM_LIMIT as int / 2),
            other.abs_le(GEOM_LIMIT as int / 2),
            motion.abs_le(GEOM_LIMIT as int),
        ensures
            r.0.q() == hit_info_time(*self, other, motion),
            (r.1.x as int, r.1.y as int) == hit_info_normal(*self, other, motion),
            r.0.valid(),
    {
        if motion.x == 0 && motion.y == 0 {
            return (Frac::one(), Vec2::zero());
        }

        let ex = self.extents.x + other.extents.x;
        let ey = self.extents.y + other.extents.y;
        let nx = axis_near(motion.x, other.position.x, self.position.x, ex);
        let fx = axis_far(motion.x, other.position.x, self.position.x, ex);
        let ny = axis_near(motion.y, other.position.y, self.position.y, ey);
        let fy = axis_far(motion.y, other.position.y, self.position.y, ey);

        let entry = if nx.lt(&ny) {
            ny
        } else {
            nx
        };
        let exit = if fy.lt(&fx) {
            fy
        } else {
            fx
        };

        let one = Xf { num: 1, den: 1 };
        if exit.lt(&entry) || one.lt(&entry) {
            return (Frac::one(), Vec2::zero());
        }

        proof {
            // The combined entry is finite: an infinite per-axis entry means a
            // zero direction on that axis, and at least one axis is nonzero.
            assert(nx.is_near());
            assert(ny.is_near());
            assert(nx.den >= 0 && ny.den >= 0);
            if q_lt(nx.q(), ny.q()) {
                if ny.den == 0 {
                    assert(ny.num == -1);
                    assert(nx.num * ny.den < ny.num * nx.den);
                    assert(nx.num * ny.den == 0) by (nonlinear_arith)
                        requires
                            ny.den == 0,
                    ;
                    assert(0 < -1 * nx.den);
                    assert(false);
                }
            } else {
                if nx.den == 0 {
                    assert(nx.num == -1);
                    assert(!(nx.num * ny.den < ny.num * nx.den));
                    assert(ny.num * nx.den == 0) by (nonlinear_arith)
                        requires
                            nx.den == 0,
                    ;
                    assert(-1 * ny.den >= 0);
                    assert(ny.den == 0);
                    assert(false);
                }
            }
        }
        let time = Frac::new(entry.num, entry.den);
        let mut normal = Vec2::zero();
        if nx.lt(&ny) {
            normal.y = neg_sign(motion.y);
        } else {
            normal.x = neg_sign(motion.x);
        }
        (time, normal)
    }

    /// Swept intersection of `self`, moving by `motion`, against the static
    /// box `other`: `None` on a miss (always for a zero motion), and
    /// otherwise the first time of impact in `[0, 1)` with the surface
    /// normal of the face hit (zero on an exact corner hit).
    pub fn sweep_test(self, other: Aabb, motion: Vec2) -> (r: Option<Hit>)
        requires
            self.abs_le(GEOM_LIMIT as int / 2),
            other.abs_le(GEOM_LIMIT as int / 2),
            motion.abs_le(GEOM_LIMIT as int),
        ensures
            motion.is_zero() ==> r is None,
            match r {
                None => !sweep_hits(self, other, motion),
                Some(h) => {
                    &&& sweep_hits(self, other, motion)
                    &&& h.time.q() == sweep_time(self, other, motion)
                    &&& (h.normal.x as int, h.normal.y as int) == sweep_normal(self, other, motion)
                    &&& h.time.valid()
                    &&& 0 <= h.time.num < h.time.den
                },
            },
    {
        if motion.x == 0 && motion.y == 0 {
            return None;
        }

        let minkowski = other.minkowski_diff(self);
        let ray = Ray::new(motion, Vec2::zero());
        ray.intersect_aabb(minkowski)
    }
}

/// Absolute value on `i64`.
fn abs_i64(v: i64) -> (r: i64)
    requires
        v > i64::MIN,
    ensures
        r == int_abs(v as int),
{
    if v >= 0 {
        v
    } else {
        -v
    }
}

/// The motion-expanded bound is a superset of the true swept volume: it
/// covers the box both at its start and at its fully displaced position,
/// on every axis (the halved motion is rounded outward, never inward).
pub proof fn lemma_broad_superset(a: Aabb, motion: Vec2)
    requires
        a.abs_le(GEOM_LIMIT as int),
        motion.abs_le(GEOM_LIMIT as int),
    ensures
        ({
            let bx_min = a.position.x + half_trunc(motion.x as int) - (a.extents.x + half_up(
                motion.x as int,
            ));
            let bx_max = a.position.x + half_trunc(motion.x as int) + (a.extents.x + half_up(
                motion.x as int,
            ));
            &&& bx_min <= min_x(a)
            &&& bx_min <= min_x(a) + motion.x
            &&& bx_max >= max_x(a)
            &&& bx_max >= max_x(a) + motion.x
        }),
        ({
            let by_min = a.position.y + half_trunc(motion.y as int) - (a.extents.y + half_up(
                motion.y as int,
            ));
            let by_max = a.position.y + half_trunc(motion.y as int) + (a.extents.y + half_up(
                motion.y as int,
            ));
            &&& by_min <= min_y(a)
            &&& by_min <= min_y(a) + motion.y
            &&& by_max >= max_y(a)
            &&& by_max >= max_y(a) + motion.y
        }),
{
    lemma_half_outward(motion.x as int);
    lemma_half_outward(motion.y as int);
}

/// Rounding the halved motion outward covers the whole displacement:
/// the truncated half minus the rounded-up half reaches at or below both
/// `0` and `m`, and their sum reaches at or above both.
proof fn lemma_half_outward(m: int)
    ensures
        half_trunc(m) - half_up(m) <= 0,
        half_trunc(m) - half_up(m) <= m,
        half_trunc(m) + half_up(m) >= 0,
        half_trunc(m) + half_up(m) >= m,
{
}

/// Overlap testing is symmetric: swapping the operands never changes the
/// answer, on any pair of boxes.
pub proof fn lemma_overlapping_symmetric(a: Aabb, b: Aabb)
    ensures
        overlapping(a, b) == overlapping(b, a),
{
}

} // verus!
