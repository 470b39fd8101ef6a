use vstd::prelude::*;
use crate::aabb::{
    overlapping, sweep_entry, sweep_hits, sweep_near_x, sweep_near_y, sweep_normal, sweep_time,
    Aabb,
};
use crate::bodies::{KinematicBody, StaticBody};
use crate::contact::Contact;
use crate::frac::{half_trunc, half_up, q_eq, q_lt, Frac};
use crate::ray::{ray_hit_normal, ray_hit_time, ray_hits, Hit, Ray};
use crate::raycast::Raycast;
use crate::rectangle::Rectangle;
use crate::utils::{slide_axis, slide_motion};
use crate::vec2::{int_abs, int_sign, Vec2, GEOM_LIMIT, MAX_COORD};

verus! {

// ---------------------------------------------------------------------------
// Pipeline events
//
// The engine runs as a strict four-stage pipeline per simulation tick:
// broad-phase culling, narrow-phase time-of-impact collection, motion
// solving, and position commit, with ray queries alongside.  Each stage
// consumes the previous stage's events and explicit collections of bodies;
// bodies are addressed by index into those collections, and an index that
// no longer resolves is silently skipped.
// ---------------------------------------------------------------------------

/// Broad-phase output for one moving body: the indices of the static
/// bodies whose boxes overlap its motion-expanded box, in iteration order.
pub struct BroadEvent {
    pub entity: usize,
    pub kinematics: Vec<usize>,
    pub statics: Vec<usize>,
}

/// A group of obstacles first touched at exactly the same time of impact.
/// Grouping is by exact equality of the time, deliberately: simultaneous
/// edge hits (a floor seam) must be resolved together so that the corner
/// heuristic sees the full set.
pub struct Collisions {
    pub time: Frac,
    pub entities: Vec<usize>,
}

/// Narrow-phase output for one moving body: its collision groups in
/// ascending time-of-impact order.
pub struct NarrowEvent {
    pub entity: usize,
    pub kinematics: Vec<Collisions>,
    pub statics: Vec<Collisions>,
}

/// The solved final position for one moving body.
#[derive(Clone, Copy, Debug)]
pub struct MoveEvent {
    pub entity: usize,
    pub position: Vec2,
}

// ---------------------------------------------------------------------------
// Specification model
// ---------------------------------------------------------------------------

/// The box of a shape at a world position: extents are half the size.
pub open spec fn box_of(shape: Rectangle, pos: Vec2) -> Aabb {
    Aabb {
        extents: Vec2 {
            x: (shape.spec_size().x as int / 2) as i64,
            y: (shape.spec_size().y as int / 2) as i64,
        },
        position: pos,
    }
}

/// The motion-expanded broad-phase box of a moving body at a position.
pub open spec fn broad_box_of(k: KinematicBody, pos: Vec2) -> Aabb {
    let b = box_of(k.shape, pos);
    Aabb {
        extents: Vec2 {
            x: (b.extents.x + half_up(k.motion.x as int)) as i64,
            y: (b.extents.y + half_up(k.motion.y as int)) as i64,
        },
        position: Vec2 {
            x: (b.position.x + half_trunc(k.motion.x as int)) as i64,
            y: (b.position.y + half_trunc(k.motion.y as int)) as i64,
        },
    }
}

/// A moving body the engine accepts: a well-formed shape and coordinates
/// within `MAX_COORD`.
pub open spec fn body_ok(k: KinematicBody) -> bool {
    &&& k.shape.wf()
    &&& k.shape.spec_size().abs_le(MAX_COORD as int)
    &&& k.motion.abs_le(MAX_COORD as int)
}

/// A static body the engine accepts.
pub open spec fn static_ok(s: StaticBody) -> bool {
    &&& s.shape.wf()
    &&& s.shape.spec_size().abs_le(MAX_COORD as int)
}

pub open spec fn bodies_ok(ks: Seq<KinematicBody>) -> bool {
    forall|i: int| 0 <= i < ks.len() ==> body_ok(#[trigger] ks[i])
}

pub open spec fn statics_ok(ss: Seq<StaticBody>) -> bool {
    forall|i: int| 0 <= i < ss.len() ==> static_ok(#[trigger] ss[i])
}

pub open spec fn positions_ok(ps: Seq<Vec2>) -> bool {
    forall|i: int| 0 <= i < ps.len() ==> (#[trigger] ps[i]).abs_le(MAX_COORD as int)
}

/// The indices of the first `n` static bodies whose boxes overlap `a_box`,
/// in iteration order.
pub open spec fn broad_candidates(
    a_box: Aabb,
    statics: Seq<StaticBody>,
    sta_pos: Seq<Vec2>,
    n: int,
) -> Seq<usize>
    decreases n,
{
    if n <= 0 {
        Seq::empty()
    } else {
        let prev = broad_candidates(a_box, statics, sta_pos, n - 1);
        if overlapping(a_box, box_of(statics[n - 1].shape, sta_pos[n - 1])) {
            prev.push((n - 1) as usize)
        } else {
            prev
        }
    }
}

// ---------------------------------------------------------------------------
// Broad phase
// ---------------------------------------------------------------------------

/// For every moving body, collects the static bodies whose boxes overlap
/// its motion-expanded box: a linear scan producing one event per moving
/// body, with candidates in static iteration order.
pub fn broadphase(
    kinematics: &Vec<KinematicBody>,
    kin_pos: &Vec<Vec2>,
    statics: &Vec<StaticBody>,
    sta_pos: &Vec<Vec2>,
) -> (evs: Vec<BroadEvent>)
    requires
        kin_pos@.len() == kinematics@.len(),
        sta_pos@.len() == statics@.len(),
        bodies_ok(kinematics@),
        statics_ok(statics@),
        positions_ok(kin_pos@),
        positions_ok(sta_pos@),
    ensures
        evs@.len() == kinematics@.len(),
        forall|i: int|
            0 <= i < evs@.len() ==> {
                &&& (#[trigger] evs@[i]).entity == i
                &&& evs@[i].kinematics@.len() == 0
                &&& evs@[i].statics@ == broad_candidates(
                    broad_box_of(kinematics@[i], kin_pos@[i]),
                    statics@,
                    sta_pos@,
                    statics@.len() as int,
                )
            },
{
    let mut evs: Vec<BroadEvent> = Vec::new();
    let mut i: usize = 0;
    while i < kinematics.len()
        invariant
            kin_pos@.len() == kinematics@.len(),
            sta_pos@.len() == statics@.len(),
            bodies_ok(kinematics@),
            statics_ok(statics@),
            positions_ok(kin_pos@),
            positions_ok(sta_pos@),
            0 <= i <= kinematics@.len(),
            evs@.len() == i,
            forall|k: int|
                0 <= k < i ==> {
                    &&& (#[trigger] evs@[k]).entity == k
                    &&& evs@[k].kinematics@.len() == 0
                    &&& evs@[k].statics@ == broad_candidates(
                        broad_box_of(kinematics@[k], kin_pos@[k]),
                        statics@,
                        sta_pos@,
                        statics@.len() as int,
                    )
                },
        decreases kinematics@.len() - i,
    {
        let body = &kinematics[i];
        let a_box = Aabb::from_rectangle(body.shape, kin_pos[i]).get_broad(body.motion);
        proof {
            assert(a_box == broad_box_of(kinematics@[i as int], kin_pos@[i as int]));
        }

        let mut sta: Vec<usize> = Vec::new();
        let mut j: usize = 0;
        while j < statics.len()
            invariant
                sta_pos@.len() == statics@.len(),
                statics_ok(statics@),
                positions_ok(sta_pos@),
                a_box.abs_le(4 * MAX_COORD as int),
                0 <= j <= statics@.len(),
                sta@ == broad_candidates(a_box, statics@, sta_pos@, j as int),
            decreases statics@.len() - j,
        {
            let b_box = Aabb::from_rectangle(statics[j].shape, sta_pos[j]);
            proof {
                assert(b_box == box_of(statics@[j as int].shape, sta_pos@[j as int]));
            }
            if a_box.is_overlapping(b_box) {
                sta.push(j);
            }
            j = j + 1;
        }

        evs.push(BroadEvent { entity: i, kinematics: Vec::new(), statics: sta });
        i = i + 1;
    }
    evs
}

// ---------------------------------------------------------------------------
// Narrow phase
// ---------------------------------------------------------------------------

/// Collision groups as specification values: each group is its time of
/// impact (a fraction pair) and its obstacle indices in discovery order.
pub open spec fn groups_view(gs: Seq<Collisions>) -> Seq<((int, int), Seq<usize>)> {
    Seq::new(gs.len(), |i: int| ((gs[i].time.num as int, gs[i].time.den as int), gs[i].entities@))
}

/// Inserting one hit into a time-ordered group list: an obstacle joining a
/// group whose time equals its own (by exact value; the group keeps its
/// original time representation), or a new single-obstacle group at its
/// sorted position.
pub open spec fn insert_hit(
    groups: Seq<((int, int), Seq<usize>)>,
    t: (int, int),
    j: usize,
) -> Seq<((int, int), Seq<usize>)>
    decreases groups.len(),
{
    if groups.len() == 0 {
        seq![(t, seq![j])]
    } else if q_eq(groups[0].0, t) {
        seq![(groups[0].0, groups[0].1.push(j))] + groups.subrange(1, groups.len() as int)
    } else if q_lt(t, groups[0].0) {
        seq![(t, seq![j])] + groups
    } else {
        seq![groups[0]] + insert_hit(groups.subrange(1, groups.len() as int), t, j)
    }
}

/// The collision groups of the first `n` broad-phase candidates of a body:
/// candidates whose sweep hits, grouped by exact time equality and ordered
/// by ascending time; candidates that miss, and indices that do not
/// resolve, contribute nothing.
pub open spec fn narrow_groups(
    a_box: Aabb,
    m: Vec2,
    cands: Seq<usize>,
    statics: Seq<StaticBody>,
    sta_pos: Seq<Vec2>,
    n: int,
) -> Seq<((int, int), Seq<usize>)>
    decreases n,
{
    if n <= 0 {
        Seq::empty()
    } else {
        let prev = narrow_groups(a_box, m, cands, statics, sta_pos, n - 1);
        let j = cands[n - 1];
        if j < statics.len() && sweep_hits(a_box, box_of(statics[j as int].shape, sta_pos[j as int]), m) {
            insert_hit(prev, sweep_time(a_box, box_of(statics[j as int].shape, sta_pos[j as int]), m), j)
        } else {
            prev
        }
    }
}

/// Every group time is a fraction with a positive denominator.
pub open spec fn groups_dens_pos(gs: Seq<((int, int), Seq<usize>)>) -> bool {
    forall|i: int| 0 <= i < gs.len() ==> (#[trigger] gs[i]).0.1 >= 1
}

/// The groups are in strictly ascending time order: no two groups share a
/// time value.
pub open spec fn groups_sorted(gs: Seq<((int, int), Seq<usize>)>) -> bool {
    forall|a: int, b: int|
        0 <= a < b < gs.len() ==> q_lt((#[trigger] gs[a]).0, (#[trigger] gs[b]).0)
}

/// Every member of every group resolves to a static body that the sweep
/// hits, at a time of impact equal (as a value) to its group's time.
pub open spec fn group_members_hit(
    gs: Seq<((int, int), Seq<usize>)>,
    a_box: Aabb,
    m: Vec2,
    statics: Seq<StaticBody>,
    sta_pos: Seq<Vec2>,
) -> bool {
    forall|gi: int, k: int|
        0 <= gi < gs.len() && 0 <= k < gs[gi].1.len() ==> {
            let j = #[trigger] gs[gi].1[k];
            &&& j < statics.len()
            &&& sweep_hits(a_box, box_of(statics[j as int].shape, sta_pos[j as int]), m)
            &&& q_eq(
                gs[gi].0,
                sweep_time(a_box, box_of(statics[j as int].shape, sta_pos[j as int]), m),
            )
        }
}

/// A sweep that hits reports a time that is a valid fraction in `[0, 1)`.
proof fn lemma_sweep_time_den(a: Aabb, b: Aabb, m: Vec2)
    requires
        sweep_hits(a, b, m),
    ensures
        sweep_time(a, b, m).1 >= 1,
        0 <= sweep_time(a, b, m).0 <= sweep_time(a, b, m).1,
{
    let nx = sweep_near_x(a, b, m);
    let ny = sweep_near_y(a, b, m);
    assert(nx.1 >= 1 || nx == (-1int, 0int));
    assert(ny.1 >= 1 || ny == (-1int, 0int));
    if sweep_entry(a, b, m).1 == 0 {
        assert(q_lt(sweep_entry(a, b, m), (0int, 1int)));
    }
}

/// Inserting a hit keeps every group time strictly above a common lower
/// bound, provided the new time is above it too.
proof fn lemma_insert_hit_lower(
    gs: Seq<((int, int), Seq<usize>)>,
    t: (int, int),
    j: usize,
    lo: (int, int),
)
    requires
        forall|i: int| 0 <= i < gs.len() ==> q_lt(lo, (#[trigger] gs[i]).0),
        q_lt(lo, t),
    ensures
        forall|i: int|
            0 <= i < insert_hit(gs, t, j).len() ==> q_lt(lo, (#[trigger] insert_hit(gs, t, j)[i]).0),
    decreases gs.len(),
{
    let r = insert_hit(gs, t, j);
    if gs.len() == 0 {
        assert(r[0].0 == t);
    } else if q_eq(gs[0].0, t) {
        assert forall|i: int| 0 <= i < r.len() implies q_lt(lo, (#[trigger] r[i]).0) by {
            if i == 0 {
                assert(r[0].0 == gs[0].0);
            } else {
                assert(r[i].0 == gs[i].0);
            }
        }
    } else if q_lt(t, gs[0].0) {
        assert forall|i: int| 0 <= i < r.len() implies q_lt(lo, (#[trigger] r[i]).0) by {
            if i == 0 {
                assert(r[0].0 == t);
            } else {
                assert(r[i].0 == gs[i - 1].0);
            }
        }
    } else {
        let tail = gs.subrange(1, gs.len() as int);
        lemma_insert_hit_lower(tail, t, j, lo);
        let ri = insert_hit(tail, t, j);
        assert forall|i: int| 0 <= i < r.len() implies q_lt(lo, (#[trigger] r[i]).0) by {
            if i == 0 {
                assert(r[0].0 == gs[0].0);
            } else {
                assert(r[i].0 == ri[i - 1].0);
            }
        }
    }
}

/// Inserting a hit preserves strict time ordering and positive
/// denominators.
proof fn lemma_insert_hit_sorted(gs: Seq<((int, int), Seq<usize>)>, t: (int, int), j: usize)
    requires
        groups_sorted(gs),
        groups_dens_pos(gs),
        t.1 >= 1,
    ensures
        groups_sorted(insert_hit(gs, t, j)),
        groups_dens_pos(insert_hit(gs, t, j)),
    decreases gs.len(),
{
    if gs.len() == 0 {
    } else if q_eq(gs[0].0, t) {
        let r = insert_hit(gs, t, j);
        assert(forall|i: int| 0 <= i < r.len() ==> (#[trigger] r[i]).0 == gs[i].0);
    } else if q_lt(t, gs[0].0) {
        let r = insert_hit(gs, t, j);
        assert forall|b: int| 1 <= b < r.len() implies q_lt(t, (#[trigger] r[b]).0) by {
            if b > 1 {
                crate::frac::lemma_q_lt_trans(t, gs[0].0, gs[b - 1].0);
            }
        }
    } else {
        let tail = gs.subrange(1, gs.len() as int);
        lemma_insert_hit_sorted(tail, t, j);
        lemma_insert_hit_lower(tail, t, j, gs[0].0);
        let r = insert_hit(gs, t, j);
        let ri = insert_hit(tail, t, j);
        assert forall|a: int, b: int| 0 <= a < b < r.len() implies q_lt(
            (#[trigger] r[a]).0,
            (#[trigger] r[b]).0,
        ) by {
            if a == 0 {
                assert(r[b].0 == ri[b - 1].0);
                assert(q_lt(gs[0].0, ri[b - 1].0));
            } else {
                assert(r[a].0 == ri[a - 1].0 && r[b].0 == ri[b - 1].0);
            }
        }
    }
}

/// Inserting a hit for an obstacle the sweep hits, at its exact time of
/// impact, keeps every group member at its group's time value.
proof fn lemma_insert_hit_members(
    gs: Seq<((int, int), Seq<usize>)>,
    t: (int, int),
    j: usize,
    a_box: Aabb,
    m: Vec2,
    statics: Seq<StaticBody>,
    sta_pos: Seq<Vec2>,
)
    requires
        group_members_hit(gs, a_box, m, statics, sta_pos),
        t.1 >= 1,
        j < statics.len(),
        sweep_hits(a_box, box_of(statics[j as int].shape, sta_pos[j as int]), m),
        q_eq(t, sweep_time(a_box, box_of(statics[j as int].shape, sta_pos[j as int]), m)),
    ensures
        group_members_hit(insert_hit(gs, t, j), a_box, m, statics, sta_pos),
    decreases gs.len(),
{
    let r = insert_hit(gs, t, j);
    if gs.len() == 0 {
    } else if q_eq(gs[0].0, t) {
        crate::frac::lemma_q_eq_trans(
            gs[0].0,
            t,
            sweep_time(a_box, box_of(statics[j as int].shape, sta_pos[j as int]), m),
        );
        assert forall|gi: int, k: int|
            0 <= gi < r.len() && 0 <= k < r[gi].1.len() implies {
            let jj = #[trigger] r[gi].1[k];
            &&& jj < statics.len()
            &&& sweep_hits(a_box, box_of(statics[jj as int].shape, sta_pos[jj as int]), m)
            &&& q_eq(
                r[gi].0,
                sweep_time(a_box, box_of(statics[jj as int].shape, sta_pos[jj as int]), m),
            )
        } by {
            if gi == 0 {
                if k < gs[0].1.len() {
                    assert(r[0].1[k] == gs[0].1[k]);
                } else {
                    assert(r[0].1[k] == j);
                }
            } else {
                assert(r[gi] == gs[gi]);
            }
        }
    } else if q_lt(t, gs[0].0) {
    } else {
        let tail = gs.subrange(1, gs.len() as int);
        lemma_insert_hit_members(tail, t, j, a_box, m, statics, sta_pos);
        let ri = insert_hit(tail, t, j);
        assert forall|gi: int, k: int|
            0 <= gi < r.len() && 0 <= k < r[gi].1.len() implies {
            let jj = #[trigger] r[gi].1[k];
            &&& jj < statics.len()
            &&& sweep_hits(a_box, box_of(statics[jj as int].shape, sta_pos[jj as int]), m)
            &&& q_eq(
                r[gi].0,
                sweep_time(a_box, box_of(statics[jj as int].shape, sta_pos[jj as int]), m),
            )
        } by {
            if gi == 0 {
                assert(r[0] == gs[0]);
            } else {
                assert(r[gi] == ri[gi - 1]);
            }
        }
    }
}

/// The narrow phase's ordering and grouping guarantee: its groups are in
/// strictly ascending time order, and every group member is an obstacle
/// the sweep hits at exactly its group's time value.
pub proof fn lemma_narrow_groups_wf(
    a_box: Aabb,
    m: Vec2,
    cands: Seq<usize>,
    statics: Seq<StaticBody>,
    sta_pos: Seq<Vec2>,
    n: int,
)
    ensures
        groups_sorted(narrow_groups(a_box, m, cands, statics, sta_pos, n)),
        groups_dens_pos(narrow_groups(a_box, m, cands, statics, sta_pos, n)),
        group_members_hit(
            narrow_groups(a_box, m, cands, statics, sta_pos, n),
            a_box,
            m,
            statics,
            sta_pos,
        ),
    decreases n,
{
    if n > 0 {
        lemma_narrow_groups_wf(a_box, m, cands, statics, sta_pos, n - 1);
        let prev = narrow_groups(a_box, m, cands, statics, sta_pos, n - 1);
        let j = cands[n - 1];
        if j < statics.len() && sweep_hits(
            a_box,
            box_of(statics[j as int].shape, sta_pos[j as int]),
            m,
        ) {
            let b = box_of(statics[j as int].shape, sta_pos[j as int]);
            lemma_sweep_time_den(a_box, b, m);
            lemma_insert_hit_sorted(prev, sweep_time(a_box, b, m), j);
            lemma_insert_hit_members(prev, sweep_time(a_box, b, m), j, a_box, m, statics, sta_pos);
        }
    }
}

/// Narrow-phase events as specification values: one (entity, groups) pair
/// per broad-phase event whose entity resolves, in event order.
pub open spec fn narrow_view(evs: Seq<NarrowEvent>) -> Seq<(usize, Seq<((int, int), Seq<usize>)>)> {
    Seq::new(evs.len(), |i: int| (evs[i].entity, groups_view(evs[i].statics@)))
}

/// The narrow-phase output for the first `n` broad-phase events.
pub open spec fn narrow_events(
    kinematics: Seq<KinematicBody>,
    kin_pos: Seq<Vec2>,
    statics: Seq<StaticBody>,
    sta_pos: Seq<Vec2>,
    events: Seq<BroadEvent>,
    n: int,
) -> Seq<(usize, Seq<((int, int), Seq<usize>)>)>
    decreases n,
{
    if n <= 0 {
        Seq::empty()
    } else {
        let prev = narrow_events(kinematics, kin_pos, statics, sta_pos, events, n - 1);
        let ev = events[n - 1];
        if ev.entity < kinematics.len() {
            prev.push(
                (
                    ev.entity,
                    narrow_groups(
                        box_of(kinematics[ev.entity as int].shape, kin_pos[ev.entity as int]),
                        kinematics[ev.entity as int].motion,
                        ev.statics@,
                        statics,
                        sta_pos,
                        ev.statics@.len() as int,
                    ),
                ),
            )
        } else {
            prev
        }
    }
}

/// Every narrow-phase event's entity resolves, its groups are strictly
/// sorted by time, and its members hit at their group's time.
proof fn lemma_narrow_events_wf(
    kinematics: Seq<KinematicBody>,
    kin_pos: Seq<Vec2>,
    statics: Seq<StaticBody>,
    sta_pos: Seq<Vec2>,
    events: Seq<BroadEvent>,
    n: int,
)
    ensures
        forall|i: int|
            0 <= i < narrow_events(kinematics, kin_pos, statics, sta_pos, events, n).len() ==> {
                let out = #[trigger] narrow_events(
                    kinematics,
                    kin_pos,
                    statics,
                    sta_pos,
                    events,
                    n,
                )[i];
                &&& out.0 < kinematics.len()
                &&& groups_sorted(out.1)
                &&& group_members_hit(
                    out.1,
                    box_of(kinematics[out.0 as int].shape, kin_pos[out.0 as int]),
                    kinematics[out.0 as int].motion,
                    statics,
                    sta_pos,
                )
            },
    decreases n,
{
    if n > 0 {
        lemma_narrow_events_wf(kinematics, kin_pos, statics, sta_pos, events, n - 1);
        let prev = narrow_events(kinematics, kin_pos, statics, sta_pos, events, n - 1);
        let r = narrow_events(kinematics, kin_pos, statics, sta_pos, events, n);
        let ev = events[n - 1];
        if ev.entity < kinematics.len() {
            let gs = narrow_groups(
                box_of(kinematics[ev.entity as int].shape, kin_pos[ev.entity as int]),
                kinematics[ev.entity as int].motion,
                ev.statics@,
                statics,
                sta_pos,
                ev.statics@.len() as int,
            );
            lemma_narrow_groups_wf(
                box_of(kinematics[ev.entity as int].shape, kin_pos[ev.entity as int]),
                kinematics[ev.entity as int].motion,
                ev.statics@,
                statics,
                sta_pos,
                ev.statics@.len() as int,
            );
            assert forall|i: int| 0 <= i < r.len() implies {
                let out = #[trigger] r[i];
                &&& out.0 < kinematics.len()
                &&& groups_sorted(out.1)
                &&& group_members_hit(
                    out.1,
                    box_of(kinematics[out.0 as int].shape, kin_pos[out.0 as int]),
                    kinematics[out.0 as int].motion,
                    statics,
                    sta_pos,
                )
            } by {
                if i < prev.len() {
                    assert(r[i] == prev[i]);
                } else {
                    assert(r[i] == (ev.entity, gs));
                }
            }
        }
    }
}

/// Inserts one hit into a group list kept in ascending time order: joins
/// the group with the exact same time value, or starts a new group at the
/// sorted position.
fn insert_group(groups: Vec<Collisions>, time: Frac, j: usize) -> (r: Vec<Collisions>)
    ensures
        groups_view(r@) == insert_hit(groups_view(groups@), time.q(), j),
    decreases groups@.len(),
{
    let ghost orig = groups@;
    let mut groups = groups;
    if groups.len() == 0 {
        let mut entities: Vec<usize> = Vec::new();
        entities.push(j);
        groups.push(Collisions { time, entities });
        proof {
            assert(groups_view(groups@) =~~= insert_hit(groups_view(orig), time.q(), j));
        }
        groups
    } else if groups[0].time == time {
        let mut g = groups.remove(0);
        g.entities.push(j);
        groups.insert(0, g);
        proof {
            assert(groups_view(groups@) =~~= insert_hit(groups_view(orig), time.q(), j));
        }
        groups
    } else if time.lt(&groups[0].time) {
        let mut entities: Vec<usize> = Vec::new();
        entities.push(j);
        groups.insert(0, Collisions { time, entities });
        proof {
            assert(groups_view(groups@) =~~= insert_hit(groups_view(orig), time.q(), j));
        }
        groups
    } else {
        let first = groups.remove(0);
        proof {
            assert(groups_view(groups@) =~~= groups_view(orig).subrange(
                1,
                groups_view(orig).len() as int,
            ));
        }
        let mut rest = insert_group(groups, time, j);
        rest.insert(0, first);
        proof {
            assert(groups_view(rest@) =~~= insert_hit(groups_view(orig), time.q(), j));
        }
        rest
    }
}

/// For every broad-phase event whose entity still resolves, runs the exact
/// sweep against each candidate, groups the hits by exact time equality,
/// and orders the groups by ascending time of impact.
pub fn narrowphase(
    kinematics: &Vec<KinematicBody>,
    kin_pos: &Vec<Vec2>,
    statics: &Vec<StaticBody>,
    sta_pos: &Vec<Vec2>,
    events: &Vec<BroadEvent>,
) -> (r: Vec<NarrowEvent>)
    requires
        kin_pos@.len() == kinematics@.len(),
        sta_pos@.len() == statics@.len(),
        bodies_ok(kinematics@),
        statics_ok(statics@),
        positions_ok(kin_pos@),
        positions_ok(sta_pos@),
    ensures
        narrow_view(r@) == narrow_events(
            kinematics@,
            kin_pos@,
            statics@,
            sta_pos@,
            events@,
            events@.len() as int,
        ),
        forall|i: int| 0 <= i < r@.len() ==> (#[trigger] r@[i]).kinematics@.len() == 0,
        forall|i: int|
            0 <= i < r@.len() ==> {
                let ent = (#[trigger] r@[i]).entity;
                &&& ent < kinematics@.len()
                &&& groups_sorted(groups_view(r@[i].statics@))
                &&& group_members_hit(
                    groups_view(r@[i].statics@),
                    box_of(kinematics@[ent as int].shape, kin_pos@[ent as int]),
                    kinematics@[ent as int].motion,
                    statics@,
                    sta_pos@,
                )
            },
{
    let mut out: Vec<NarrowEvent> = Vec::new();
    let mut e: usize = 0;
    while e < events.len()
        invariant
            kin_pos@.len() == kinematics@.len(),
            sta_pos@.len() == statics@.len(),
            bodies_ok(kinematics@),
            statics_ok(statics@),
            positions_ok(kin_pos@),
            positions_ok(sta_pos@),
            0 <= e <= events@.len(),
            narrow_view(out@) == narrow_events(
                kinematics@,
                kin_pos@,
                statics@,
                sta_pos@,
                events@,
                e as int,
            ),
            forall|i: int| 0 <= i < out@.len() ==> (#[trigger] out@[i]).kinematics@.len() == 0,
        decreases events@.len() - e,
    {
        let ev = &events[e];
        if ev.entity < kinematics.len() {
            let body = &kinematics[ev.entity];
            let motion = body.motion;
            let a_box = Aabb::from_rectangle(body.shape, kin_pos[ev.entity]);
            proof {
                assert(a_box == box_of(
                    kinematics@[ev.entity as int].shape,
                    kin_pos@[ev.entity as int],
                ));
            }

            let mut sta_col: Vec<Collisions> = Vec::new();
            let mut k: usize = 0;
            while k < ev.statics.len()
                invariant
                    sta_pos@.len() == statics@.len(),
                    statics_ok(statics@),
                    positions_ok(sta_pos@),
                    positions_ok(kin_pos@),
                    a_box == box_of(kinematics@[ev.entity as int].shape, kin_pos@[ev.entity as int]),
                    a_box.abs_le(MAX_COORD as int),
                    motion.abs_le(MAX_COORD as int),
                    ev.entity < kinematics@.len(),
                    kin_pos@.len() == kinematics@.len(),
                    bodies_ok(kinematics@),
                    0 <= k <= ev.statics@.len(),
                    groups_view(sta_col@) == narrow_groups(
                        a_box,
                        motion,
                        ev.statics@,
                        statics@,
                        sta_pos@,
                        k as int,
                    ),
                    motion == kinematics@[ev.entity as int].motion,
                decreases ev.statics@.len() - k,
            {
                let j = ev.statics[k];
                if j < statics.len() {
                    let b_box = Aabb::from_rectangle(statics[j].shape, sta_pos[j]);
                    proof {
                        assert(b_box == box_of(statics@[j as int].shape, sta_pos@[j as int]));
                    }
                    match a_box.sweep_test(b_box, motion) {
                        Some(hit) => {
                            sta_col = insert_group(sta_col, hit.time, j);
                        },
                        None => {},
                    }
                }
                k = k + 1;
            }

            out.push(NarrowEvent { entity: ev.entity, kinematics: Vec::new(), statics: sta_col });
            proof {
                assert(narrow_view(out@) =~~= narrow_events(
                    kinematics@,
                    kin_pos@,
                    statics@,
                    sta_pos@,
                    events@,
                    e + 1,
                ));
            }
        } else {
            proof {
                assert(narrow_view(out@) =~~= narrow_events(
                    kinematics@,
                    kin_pos@,
                    statics@,
                    sta_pos@,
                    events@,
                    e + 1,
                ));
            }
        }
        e = e + 1;
    }
    proof {
        assert(narrow_view(out@) =~~= narrow_events(
            kinematics@,
            kin_pos@,
            statics@,
            sta_pos@,
            events@,
            events@.len() as int,
        ));
        lemma_narrow_events_wf(
            kinematics@,
            kin_pos@,
            statics@,
            sta_pos@,
            events@,
            events@.len() as int,
        );
        assert forall|i: int| 0 <= i < out@.len() implies {
            let ent = (#[trigger] out@[i]).entity;
            &&& ent < kinematics@.len()
            &&& groups_sorted(groups_view(out@[i].statics@))
            &&& group_members_hit(
                groups_view(out@[i].statics@),
                box_of(kinematics@[ent as int].shape, kin_pos@[ent as int]),
                kinematics@[ent as int].motion,
                statics@,
                sta_pos@,
            )
        } by {
            assert(narrow_view(out@)[i] == (out@[i].entity, groups_view(out@[i].statics@)));
        }
    }
    out
}

// ---------------------------------------------------------------------------
// Motion solver
// ---------------------------------------------------------------------------

/// The obstacle box widened along the x axis by the moving box's own
/// horizontal extent: the diagonal-solve heuristic treats an ambiguous
/// corner as if the adjacent wall's footprint extended over the gap, so a
/// body does not snag on a perfect corner.
pub open spec fn widen_x(b: Aabb, a: Aabb) -> Aabb {
    Aabb {
        extents: Vec2 { x: (b.extents.x + a.extents.x) as i64, y: b.extents.y },
        position: b.position,
    }
}

/// A slide applied to both axes of a motion.
pub open spec fn slide_vec2(m: Vec2, nrm: (int, int), t: (int, int)) -> Vec2 {
    Vec2 {
        x: slide_axis(m.x as int, nrm.0, t) as i64,
        y: slide_axis(m.y as int, nrm.1, t) as i64,
    }
}

/// One obstacle step of the solver: re-sweep with the current motion; on a
/// hit, slide; on an exact corner hit against a lone obstacle, re-test
/// against the widened obstacle and slide again.  The result is the new
/// motion and the contact normal to record, if any: no contact is recorded
/// for a miss, for a corner hit whose widened re-test misses, or for a
/// zero final normal.
pub open spec fn solve_obstacle(a_box: Aabb, m: Vec2, b_box: Aabb, single: bool) -> (
    Vec2,
    Option<(int, int)>,
) {
    if !sweep_hits(a_box, b_box, m) {
        (m, Option::None)
    } else {
        let t = sweep_time(a_box, b_box, m);
        let nrm = sweep_normal(a_box, b_box, m);
        let m1 = slide_vec2(m, nrm, t);
        if nrm == (0int, 0int) && single {
            let bw = widen_x(b_box, a_box);
            if !sweep_hits(a_box, bw, m1) {
                (m1, Option::None)
            } else {
                let t2 = sweep_time(a_box, bw, m1);
                let n2 = sweep_normal(a_box, bw, m1);
                (
                    slide_vec2(m1, n2, t2),
                    if n2 == (0int, 0int) {
                        Option::None
                    } else {
                        Option::Some(n2)
                    },
                )
            }
        } else {
            (
                m1,
                if nrm == (0int, 0int) {
                    Option::None
                } else {
                    Option::Some(nrm)
                },
            )
        }
    }
}

/// The contact recorded for obstacle `j` with normal `nrm`.
pub open spec fn contact_of(j: usize, nrm: (int, int)) -> Contact {
    Contact { entity: j, normal: Vec2 { x: nrm.0 as i64, y: nrm.1 as i64 } }
}

/// The solver's state after the first `n` obstacles of one group: the
/// remaining motion and the contacts recorded, in order.  Obstacle indices
/// that do not resolve are skipped.
pub open spec fn solve_group(
    a_box: Aabb,
    m: Vec2,
    ents: Seq<usize>,
    single: bool,
    statics: Seq<StaticBody>,
    sta_pos: Seq<Vec2>,
    n: int,
) -> (Vec2, Seq<Contact>)
    decreases n,
{
    if n <= 0 {
        (m, Seq::empty())
    } else {
        let prev = solve_group(a_box, m, ents, single, statics, sta_pos, n - 1);
        let j = ents[n - 1];
        if j < statics.len() {
            let step = solve_obstacle(
                a_box,
                prev.0,
                box_of(statics[j as int].shape, sta_pos[j as int]),
                single,
            );
            (
                step.0,
                match step.1 {
                    Option::Some(nrm) => prev.1.push(contact_of(j, nrm)),
                    Option::None => prev.1,
                },
            )
        } else {
            prev
        }
    }
}

/// The solver's state after the first `n` collision groups, processed in
/// order with the remaining motion threaded through.
pub open spec fn solve_groups(
    a_box: Aabb,
    m: Vec2,
    groups: Seq<Collisions>,
    statics: Seq<StaticBody>,
    sta_pos: Seq<Vec2>,
    n: int,
) -> (Vec2, Seq<Contact>)
    decreases n,
{
    if n <= 0 {
        (m, Seq::empty())
    } else {
        let prev = solve_groups(a_box, m, groups, statics, sta_pos, n - 1);
        let g = groups[n - 1];
        let gr = solve_group(
            a_box,
            prev.0,
            g.entities@,
            g.entities@.len() <= 1,
            statics,
            sta_pos,
            g.entities@.len() as int,
        );
        (gr.0, prev.1 + gr.1)
    }
}

/// The move events emitted for the first `n` narrow-phase events: for each
/// event whose entity resolves, the body's position plus its fully solved
/// remaining motion.
pub open spec fn solve_move_events(
    kinematics: Seq<KinematicBody>,
    kin_pos: Seq<Vec2>,
    statics: Seq<StaticBody>,
    sta_pos: Seq<Vec2>,
    events: Seq<NarrowEvent>,
    n: int,
) -> Seq<MoveEvent>
    decreases n,
{
    if n <= 0 {
        Seq::empty()
    } else {
        let prev = solve_move_events(kinematics, kin_pos, statics, sta_pos, events, n - 1);
        let ev = events[n - 1];
        if ev.entity < kinematics.len() {
            let res = solve_groups(
                box_of(kinematics[ev.entity as int].shape, kin_pos[ev.entity as int]),
                kinematics[ev.entity as int].motion,
                ev.statics@,
                statics,
                sta_pos,
                ev.statics@.len() as int,
            );
            prev.push(
                MoveEvent {
                    entity: ev.entity,
                    position: Vec2 {
                        x: (kin_pos[ev.entity as int].x + res.0.x) as i64,
                        y: (kin_pos[ev.entity as int].y + res.0.y) as i64,
                    },
                },
            )
        } else {
            prev
        }
    }
}

/// The contacts appended to entity `e`'s list by the first `n` narrow-phase
/// events.
pub open spec fn solve_contacts_for(
    kinematics: Seq<KinematicBody>,
    kin_pos: Seq<Vec2>,
    statics: Seq<StaticBody>,
    sta_pos: Seq<Vec2>,
    events: Seq<NarrowEvent>,
    e: int,
    n: int,
) -> Seq<Contact>
    decreases n,
{
    if n <= 0 {
        Seq::empty()
    } else {
        let prev = solve_contacts_for(kinematics, kin_pos, statics, sta_pos, events, e, n - 1);
        let ev = events[n - 1];
        if ev.entity == e && ev.entity < kinematics.len() {
            prev + solve_groups(
                box_of(kinematics[ev.entity as int].shape, kin_pos[ev.entity as int]),
                kinematics[ev.entity as int].motion,
                ev.statics@,
                statics,
                sta_pos,
                ev.statics@.len() as int,
            ).1
        } else {
            prev
        }
    }
}

/// Walks each narrow-phase event's groups in ascending time order,
/// re-sweeping every obstacle against the current remaining motion and
/// sliding along each hit face (with the widened re-test on lone corner
/// hits).  Records the nonzero contact normals on the moving body and
/// emits one move event per resolved body: its position plus the fully
/// solved remaining motion.
pub fn solve(
    kinematics: &mut Vec<KinematicBody>,
    kin_pos: &Vec<Vec2>,
    statics: &Vec<StaticBody>,
    sta_pos: &Vec<Vec2>,
    events: &Vec<NarrowEvent>,
) -> (moves: Vec<MoveEvent>)
    requires
        kin_pos@.len() == old(kinematics)@.len(),
        sta_pos@.len() == statics@.len(),
        bodies_ok(old(kinematics)@),
        statics_ok(statics@),
        positions_ok(kin_pos@),
        positions_ok(sta_pos@),
    ensures
        final(kinematics)@.len() == old(kinematics)@.len(),
        forall|q: int|
            0 <= q < old(kinematics)@.len() ==> {
                &&& (#[trigger] final(kinematics)@[q]).shape == old(kinematics)@[q].shape
                &&& final(kinematics)@[q].motion == old(kinematics)@[q].motion
                &&& final(kinematics)@[q].contacts@ == old(kinematics)@[q].contacts@
                    + solve_contacts_for(
                    old(kinematics)@,
                    kin_pos@,
                    statics@,
                    sta_pos@,
                    events@,
                    q,
                    events@.len() as int,
                )
            },
        moves@ == solve_move_events(
            old(kinematics)@,
            kin_pos@,
            statics@,
            sta_pos@,
            events@,
            events@.len() as int,
        ),
{
    let mut moves: Vec<MoveEvent> = Vec::new();
    let mut e: usize = 0;
    while e < events.len()
        invariant
            kin_pos@.len() == old(kinematics)@.len(),
            sta_pos@.len() == statics@.len(),
            bodies_ok(old(kinematics)@),
            statics_ok(statics@),
            positions_ok(kin_pos@),
            positions_ok(sta_pos@),
            0 <= e <= events@.len(),
            kinematics@.len() == old(kinematics)@.len(),
            forall|q: int|
                0 <= q < old(kinematics)@.len() ==> {
                    &&& (#[trigger] kinematics@[q]).shape == old(kinematics)@[q].shape
                    &&& kinematics@[q].motion == old(kinematics)@[q].motion
                    &&& kinematics@[q].contacts@ == old(kinematics)@[q].contacts@
                        + solve_contacts_for(
                        old(kinematics)@,
                        kin_pos@,
                        statics@,
                        sta_pos@,
                        events@,
                        q,
                        e as int,
                    )
                },
            moves@ == solve_move_events(
                old(kinematics)@,
                kin_pos@,
                statics@,
                sta_pos@,
                events@,
                e as int,
            ),
        decreases events@.len() - e,
    {
        let ev = &events[e];
        if ev.entity < kinematics.len() {
            let ent = ev.entity;
            let shape = kinematics[ent].shape;
            let m0 = kinematics[ent].motion;
            let a_box = Aabb::from_rectangle(shape, kin_pos[ent]);
            proof {
                assert(a_box == box_of(old(kinematics)@[ent as int].shape, kin_pos@[ent as int]));
            }

            let mut a_motion = m0;
            let mut new_contacts: Vec<Contact> = Vec::new();
            let mut g: usize = 0;
            while g < ev.statics.len()
                invariant
                    sta_pos@.len() == statics@.len(),
                    statics_ok(statics@),
                    positions_ok(sta_pos@),
                    a_box.abs_le(MAX_COORD as int),
                    m0.abs_le(MAX_COORD as int),
                    0 <= g <= ev.statics@.len(),
                    a_motion == solve_groups(
                        a_box,
                        m0,
                        ev.statics@,
                        statics@,
                        sta_pos@,
                        g as int,
                    ).0,
                    new_contacts@ == solve_groups(
                        a_box,
                        m0,
                        ev.statics@,
                        statics@,
                        sta_pos@,
                        g as int,
                    ).1,
                    a_motion.abs_le(MAX_COORD as int),
                decreases ev.statics@.len() - g,
            {
                let group = &ev.statics[g];
                let single = group.entities.len() <= 1;
                let ghost mg = solve_groups(a_box, m0, ev.statics@, statics@, sta_pos@, g as int).0;
                let ghost cg = solve_groups(a_box, m0, ev.statics@, statics@, sta_pos@, g as int).1;

                let mut k: usize = 0;
                while k < group.entities.len()
                    invariant
                        sta_pos@.len() == statics@.len(),
                        statics_ok(statics@),
                        positions_ok(sta_pos@),
                        a_box.abs_le(MAX_COORD as int),
                        0 <= k <= group.entities@.len(),
                        single == (group.entities@.len() <= 1),
                        a_motion == solve_group(
                            a_box,
                            mg,
                            group.entities@,
                            single,
                            statics@,
                            sta_pos@,
                            k as int,
                        ).0,
                        new_contacts@ == cg + solve_group(
                            a_box,
                            mg,
                            group.entities@,
                            single,
                            statics@,
                            sta_pos@,
                            k as int,
                        ).1,
                        a_motion.abs_le(MAX_COORD as int),
                    decreases group.entities@.len() - k,
                {
                    let j = group.entities[k];
                    let ghost m_pre = a_motion;
                    if j < statics.len() {
                        let b_box = Aabb::from_rectangle(statics[j].shape, sta_pos[j]);
                        proof {
                            assert(b_box == box_of(statics@[j as int].shape, sta_pos@[j as int]));
                        }
                        match a_box.sweep_test(b_box, a_motion) {
                            Some(hit) => {
                                proof {
                                    assert(hit.normal.x as int == 0 || hit.normal.x as int
                                        == -int_sign(a_motion.x as int));
                                    assert(hit.normal.y as int == 0 || hit.normal.y as int
                                        == -int_sign(a_motion.y as int));
                                }
                                slide_motion(&mut a_motion, hit.normal, hit.time);
                                let mut contact_normal = hit.normal;
                                let mut record = true;
                                if hit.normal.x == 0 && hit.normal.y == 0 && single {
                                    let wide = Aabb {
                                        extents: Vec2 {
                                            x: b_box.extents.x + a_box.extents.x,
                                            y: b_box.extents.y,
                                        },
                                        position: b_box.position,
                                    };
                                    proof {
                                        assert(wide == widen_x(b_box, a_box));
                                    }
                                    match a_box.sweep_test(wide, a_motion) {
                                        Some(hit2) => {
                                            proof {
                                                assert(hit2.normal.x as int == 0
                                                    || hit2.normal.x as int == -int_sign(
                                                    a_motion.x as int,
                                                ));
                                                assert(hit2.normal.y as int == 0
                                                    || hit2.normal.y as int == -int_sign(
                                                    a_motion.y as int,
                                                ));
                                            }
                                            slide_motion(&mut a_motion, hit2.normal, hit2.time);
                                            contact_normal = hit2.normal;
                                        },
                                        None => {
                                            record = false;
                                        },
                                    }
                                }
                                if record && (contact_normal.x != 0 || contact_normal.y != 0) {
                                    new_contacts.push(Contact { entity: j, normal: contact_normal });
                                }
                            },
                            None => {},
                        }
                    }
                    proof {
                        assert(a_motion == solve_group(
                            a_box,
                            mg,
                            group.entities@,
                            single,
                            statics@,
                            sta_pos@,
                            k + 1,
                        ).0);
                        assert(new_contacts@ == cg + solve_group(
                            a_box,
                            mg,
                            group.entities@,
                            single,
                            statics@,
                            sta_pos@,
                            k + 1,
                        ).1);
                    }
                    k = k + 1;
                }
                proof {
                    assert(a_motion == solve_groups(
                        a_box,
                        m0,
                        ev.statics@,
                        statics@,
                        sta_pos@,
                        g + 1,
                    ).0);
                    assert(new_contacts@ =~= solve_groups(
                        a_box,
                        m0,
                        ev.statics@,
                        statics@,
                        sta_pos@,
                        g + 1,
                    ).1);
                }
                g = g + 1;
            }

            let ghost pre_commit = kinematics@;
            kinematics[ent].contacts.append(&mut new_contacts);
            moves.push(
                MoveEvent {
                    entity: ent,
                    position: Vec2 {
                        x: a_box.position.x + a_motion.x,
                        y: a_box.position.y + a_motion.y,
                    },
                },
            );
            proof {
                assert forall|q: int| 0 <= q < old(kinematics)@.len() implies {
                    &&& (#[trigger] kinematics@[q]).shape == old(kinematics)@[q].shape
                    &&& kinematics@[q].motion == old(kinematics)@[q].motion
                    &&& kinematics@[q].contacts@ == old(kinematics)@[q].contacts@
                        + solve_contacts_for(
                        old(kinematics)@,
                        kin_pos@,
                        statics@,
                        sta_pos@,
                        events@,
                        q,
                        e + 1,
                    )
                } by {
                    if q == ent as int {
                        assert(kinematics@[q].contacts@ =~= old(kinematics)@[q].contacts@
                            + solve_contacts_for(
                            old(kinematics)@,
                            kin_pos@,
                            statics@,
                            sta_pos@,
                            events@,
                            q,
                            e + 1,
                        ));
                    } else {
                        assert(kinematics@[q] == pre_commit[q]);
                    }
                }
            }
        }
        e = e + 1;
    }
    moves
}

// ---------------------------------------------------------------------------
// Contact clearing and position commit
// ---------------------------------------------------------------------------

/// Clears every moving body's contact list: contacts live for exactly one
/// step and are rebuilt while solving.
pub fn clear_contacts(kinematics: &mut Vec<KinematicBody>)
    ensures
        final(kinematics)@.len() == old(kinematics)@.len(),
        forall|i: int|
            0 <= i < old(kinematics)@.len() ==> {
                &&& (#[trigger] final(kinematics)@[i]).shape == old(kinematics)@[i].shape
                &&& final(kinematics)@[i].motion == old(kinematics)@[i].motion
                &&& final(kinematics)@[i].contacts@.len() == 0
            },
{
    let n = kinematics.len();
    let mut i: usize = 0;
    while i < n
        invariant
            n == old(kinematics)@.len(),
            kinematics@.len() == old(kinematics)@.len(),
            0 <= i <= n,
            forall|k: int|
                i <= k < old(kinematics)@.len() ==> (#[trigger] kinematics@[k]) == old(
                    kinematics,
                )@[k],
            forall|k: int|
                0 <= k < i ==> {
                    &&& (#[trigger] kinematics@[k]).shape == old(kinematics)@[k].shape
                    &&& kinematics@[k].motion == old(kinematics)@[k].motion
                    &&& kinematics@[k].contacts@.len() == 0
                },
        decreases n - i,
    {
        kinematics[i].contacts.clear();
        i = i + 1;
    }
}

/// The positions after applying the first `n` move events in order; an
/// event whose entity does not resolve is skipped.
pub open spec fn apply_moves(ps: Seq<Vec2>, evs: Seq<MoveEvent>, n: int) -> Seq<Vec2>
    decreases n,
{
    if n <= 0 {
        ps
    } else {
        let prev = apply_moves(ps, evs, n - 1);
        if evs[n - 1].entity < prev.len() {
            prev.update(evs[n - 1].entity as int, evs[n - 1].position)
        } else {
            prev
        }
    }
}

/// Commits solved positions: each move event writes its position to its
/// entity's slot, in event order; events for missing entities are skipped.
pub fn move_entities(positions: &mut Vec<Vec2>, events: &Vec<MoveEvent>)
    ensures
        final(positions)@ == apply_moves(old(positions)@, events@, events@.len() as int),
{
    let mut e: usize = 0;
    while e < events.len()
        invariant
            0 <= e <= events@.len(),
            positions@ == apply_moves(old(positions)@, events@, e as int),
        decreases events@.len() - e,
    {
        let ev = &events[e];
        if ev.entity < positions.len() {
            positions[ev.entity] = ev.position;
        }
        e = e + 1;
    }
}

/// A normal lying along exactly one axis, with unit length.
pub open spec fn unit_axis_normal(v: Vec2) -> bool {
    ||| (int_abs(v.x as int) == 1 && v.y == 0)
    ||| (v.x == 0 && int_abs(v.y as int) == 1)
}

/// A nonzero sweep normal lies along exactly one axis with unit length:
/// the binding axis always has a nonzero direction component there.
proof fn lemma_sweep_normal_unit(a: Aabb, b: Aabb, m: Vec2)
    ensures
        sweep_normal(a, b, m) == (0int, 0int) || {
            let nrm = sweep_normal(a, b, m);
            (int_abs(nrm.0) == 1 && nrm.1 == 0) || (nrm.0 == 0 && int_abs(nrm.1) == 1)
        },
{
    let nx = sweep_near_x(a, b, m);
    let ny = sweep_near_y(a, b, m);
    if q_lt(ny, nx) {
        if m.x == 0 {
            assert(nx == (-1int, 0int));
            assert(ny.0 * 0 < -1 * ny.1) by (nonlinear_arith)
                requires
                    q_lt(ny, (-1int, 0int)),
            ;
            assert(ny.1 >= 0);
            assert(false);
        }
    } else if q_lt(nx, ny) {
        if m.y == 0 {
            assert(ny == (-1int, 0int));
            assert(nx.0 * 0 < -1 * nx.1) by (nonlinear_arith)
                requires
                    q_lt(nx, (-1int, 0int)),
            ;
            assert(nx.1 >= 0);
            assert(false);
        }
    }
}

/// Every contact one obstacle step records carries a unit axis normal.
proof fn lemma_solve_obstacle_normal(a_box: Aabb, m: Vec2, b_box: Aabb, single: bool)
    ensures
        solve_obstacle(a_box, m, b_box, single).1 matches Option::Some(nrm) ==> (int_abs(nrm.0)
            == 1 && nrm.1 == 0) || (nrm.0 == 0 && int_abs(nrm.1) == 1),
{
    if sweep_hits(a_box, b_box, m) {
        lemma_sweep_normal_unit(a_box, b_box, m);
        let nrm = sweep_normal(a_box, b_box, m);
        let m1 = slide_vec2(m, nrm, sweep_time(a_box, b_box, m));
        if nrm == (0int, 0int) && single {
            lemma_sweep_normal_unit(a_box, widen_x(b_box, a_box), m1);
        }
    }
}

/// Every contact the solver records carries a unit axis normal: a corner
/// hit whose widened re-test still reports a zero normal records nothing.
pub proof fn lemma_solve_contacts_unit_normals(
    a_box: Aabb,
    m: Vec2,
    groups: Seq<Collisions>,
    statics: Seq<StaticBody>,
    sta_pos: Seq<Vec2>,
    n: int,
)
    ensures
        forall|i: int|
            0 <= i < solve_groups(a_box, m, groups, statics, sta_pos, n).1.len()
                ==> unit_axis_normal(
                #[trigger] solve_groups(a_box, m, groups, statics, sta_pos, n).1[i].normal,
            ),
    decreases n,
{
    if n > 0 {
        lemma_solve_contacts_unit_normals(a_box, m, groups, statics, sta_pos, n - 1);
        let prev = solve_groups(a_box, m, groups, statics, sta_pos, n - 1);
        let g = groups[n - 1];
        lemma_solve_group_contacts_unit_normals(
            a_box,
            prev.0,
            g.entities@,
            g.entities@.len() <= 1,
            statics,
            sta_pos,
            g.entities@.len() as int,
        );
    }
}

/// Every contact one group's resolution records carries a unit axis
/// normal.
proof fn lemma_solve_group_contacts_unit_normals(
    a_box: Aabb,
    m: Vec2,
    ents: Seq<usize>,
    single: bool,
    statics: Seq<StaticBody>,
    sta_pos: Seq<Vec2>,
    n: int,
)
    ensures
        forall|i: int|
            0 <= i < solve_group(a_box, m, ents, single, statics, sta_pos, n).1.len()
                ==> unit_axis_normal(
                #[trigger] solve_group(a_box, m, ents, single, statics, sta_pos, n).1[i].normal,
            ),
    decreases n,
{
    if n > 0 {
        lemma_solve_group_contacts_unit_normals(a_box, m, ents, single, statics, sta_pos, n - 1);
        let prev = solve_group(a_box, m, ents, single, statics, sta_pos, n - 1);
        let j = ents[n - 1];
        if j < statics.len() {
            lemma_solve_obstacle_normal(
                a_box,
                prev.0,
                box_of(statics[j as int].shape, sta_pos[j as int]),
                single,
            );
        }
    }
}

/// One obstacle step never lengthens the remaining motion on either axis:
/// every slide it applies uses a zero or motion-opposing normal.
proof fn lemma_solve_obstacle_shortens(a_box: Aabb, m: Vec2, b_box: Aabb, single: bool)
    requires
        m.abs_le(GEOM_LIMIT as int),
    ensures
        int_abs(solve_obstacle(a_box, m, b_box, single).0.x as int) <= int_abs(m.x as int),
        int_abs(solve_obstacle(a_box, m, b_box, single).0.y as int) <= int_abs(m.y as int),
{
    if sweep_hits(a_box, b_box, m) {
        let t = sweep_time(a_box, b_box, m);
        let nrm = sweep_normal(a_box, b_box, m);
        lemma_sweep_time_den(a_box, b_box, m);
        assert(nrm.0 == 0 || nrm.0 == -int_sign(m.x as int));
        assert(nrm.1 == 0 || nrm.1 == -int_sign(m.y as int));
        crate::utils::lemma_slide_axis_shortens(m.x as int, nrm.0, t);
        crate::utils::lemma_slide_axis_shortens(m.y as int, nrm.1, t);
        let m1 = slide_vec2(m, nrm, t);
        assert(m1.x as int == slide_axis(m.x as int, nrm.0, t));
        assert(m1.y as int == slide_axis(m.y as int, nrm.1, t));
        if nrm == (0int, 0int) && single {
            let bw = widen_x(b_box, a_box);
            if sweep_hits(a_box, bw, m1) {
                let t2 = sweep_time(a_box, bw, m1);
                let n2 = sweep_normal(a_box, bw, m1);
                lemma_sweep_time_den(a_box, bw, m1);
                assert(n2.0 == 0 || n2.0 == -int_sign(m1.x as int));
                assert(n2.1 == 0 || n2.1 == -int_sign(m1.y as int));
                crate::utils::lemma_slide_axis_shortens(m1.x as int, n2.0, t2);
                crate::utils::lemma_slide_axis_shortens(m1.y as int, n2.1, t2);
                let m2 = slide_vec2(m1, n2, t2);
                assert(m2.x as int == slide_axis(m1.x as int, n2.0, t2));
                assert(m2.y as int == slide_axis(m1.y as int, n2.1, t2));
            }
        }
    }
}

/// One group's resolution never lengthens the remaining motion on either
/// axis.
proof fn lemma_solve_group_shortens(
    a_box: Aabb,
    m: Vec2,
    ents: Seq<usize>,
    single: bool,
    statics: Seq<StaticBody>,
    sta_pos: Seq<Vec2>,
    n: int,
)
    requires
        m.abs_le(GEOM_LIMIT as int),
    ensures
        int_abs(solve_group(a_box, m, ents, single, statics, sta_pos, n).0.x as int) <= int_abs(
            m.x as int,
        ),
        int_abs(solve_group(a_box, m, ents, single, statics, sta_pos, n).0.y as int) <= int_abs(
            m.y as int,
        ),
    decreases n,
{
    if n > 0 {
        lemma_solve_group_shortens(a_box, m, ents, single, statics, sta_pos, n - 1);
        let prev = solve_group(a_box, m, ents, single, statics, sta_pos, n - 1);
        let j = ents[n - 1];
        if j < statics.len() {
            lemma_solve_obstacle_shortens(
                a_box,
                prev.0,
                box_of(statics[j as int].shape, sta_pos[j as int]),
                single,
            );
        }
    }
}

/// Sliding only ever shortens the displacement: however many groups the
/// solver walks, the remaining motion's magnitude on each axis never
/// exceeds the intended motion's.
pub proof fn lemma_solver_shortens_motion(
    a_box: Aabb,
    m: Vec2,
    groups: Seq<Collisions>,
    statics: Seq<StaticBody>,
    sta_pos: Seq<Vec2>,
    n: int,
)
    requires
        m.abs_le(GEOM_LIMIT as int),
    ensures
        int_abs(solve_groups(a_box, m, groups, statics, sta_pos, n).0.x as int) <= int_abs(
            m.x as int,
        ),
        int_abs(solve_groups(a_box, m, groups, statics, sta_pos, n).0.y as int) <= int_abs(
            m.y as int,
        ),
    decreases n,
{
    if n > 0 {
        lemma_solver_shortens_motion(a_box, m, groups, statics, sta_pos, n - 1);
        let prev = solve_groups(a_box, m, groups, statics, sta_pos, n - 1);
        let g = groups[n - 1];
        lemma_solve_group_shortens(
            a_box,
            prev.0,
            g.entities@,
            g.entities@.len() <= 1,
            statics,
            sta_pos,
            g.entities@.len() as int,
        );
    }
}

/// A group processed with zero remaining motion leaves the motion at zero
/// and records nothing: every re-sweep of a zero motion misses.
pub proof fn lemma_solve_group_zero_motion(
    a_box: Aabb,
    m: Vec2,
    ents: Seq<usize>,
    single: bool,
    statics: Seq<StaticBody>,
    sta_pos: Seq<Vec2>,
    n: int,
)
    requires
        m.is_zero(),
    ensures
        solve_group(a_box, m, ents, single, statics, sta_pos, n) == (m, Seq::<Contact>::empty()),
    decreases n,
{
    if n > 0 {
        lemma_solve_group_zero_motion(a_box, m, ents, single, statics, sta_pos, n - 1);
    }
}

/// Idempotence of the solver: a body whose intended motion is zero — one
/// already at rest against its contacts, or resolved in an earlier step —
/// keeps a zero motion through every collision group and records no new
/// contacts, so its committed position is exactly its current position.
pub proof fn lemma_solver_idempotent(
    a_box: Aabb,
    m: Vec2,
    groups: Seq<Collisions>,
    statics: Seq<StaticBody>,
    sta_pos: Seq<Vec2>,
    n: int,
)
    requires
        m.is_zero(),
    ensures
        solve_groups(a_box, m, groups, statics, sta_pos, n) == (m, Seq::<Contact>::empty()),
    decreases n,
{
    if n > 0 {
        lemma_solver_idempotent(a_box, m, groups, statics, sta_pos, n - 1);
        lemma_solve_group_zero_motion(
            a_box,
            m,
            groups[n - 1].entities@,
            groups[n - 1].entities@.len() <= 1,
            statics,
            sta_pos,
            groups[n - 1].entities@.len() as int,
        );
    }
}

// ---------------------------------------------------------------------------
// Ray queries
// ---------------------------------------------------------------------------

/// The world-space ray of a query anchored at `p`.
pub open spec fn ray_world(rc: Raycast, p: Vec2) -> Ray {
    Ray {
        direction: rc.direction,
        position: Vec2 { x: (p.x + rc.offset.x) as i64, y: (p.y + rc.offset.y) as i64 },
    }
}

/// The broad-phase bound of a ray query anchored at `p`: a box covering
/// the ray's segment, with each extent at least one unit.
pub open spec fn ray_broad_box(rc: Raycast, p: Vec2) -> Aabb {
    Aabb {
        extents: Vec2 {
            x: (if half_up(rc.direction.x as int) >= 1 {
                half_up(rc.direction.x as int)
            } else {
                1int
            }) as i64,
            y: (if half_up(rc.direction.y as int) >= 1 {
                half_up(rc.direction.y as int)
            } else {
                1int
            }) as i64,
        },
        position: Vec2 {
            x: (p.x + rc.offset.x + half_trunc(rc.direction.x as int)) as i64,
            y: (p.y + rc.offset.y + half_trunc(rc.direction.y as int)) as i64,
        },
    }
}

/// The hit record of a ray against a box it hits.
pub open spec fn hit_of(r: Ray, b: Aabb) -> Hit {
    Hit {
        time: Frac { num: ray_hit_time(r, b).0 as i64, den: ray_hit_time(r, b).1 as i64 },
        normal: Vec2 { x: ray_hit_normal(r, b).0 as i64, y: ray_hit_normal(r, b).1 as i64 },
    }
}

/// The hits a ray query collects against the first `n` static bodies:
/// those passing the broad bound and hit by the exact slab test, in
/// iteration order, unsorted.
pub open spec fn ray_hit_list(
    rc: Raycast,
    p: Vec2,
    statics: Seq<StaticBody>,
    sta_pos: Seq<Vec2>,
    n: int,
) -> Seq<(usize, Hit)>
    decreases n,
{
    if n <= 0 {
        Seq::empty()
    } else {
        let prev = ray_hit_list(rc, p, statics, sta_pos, n - 1);
        let b = box_of(statics[n - 1].shape, sta_pos[n - 1]);
        if overlapping(ray_broad_box(rc, p), b) && ray_hits(ray_world(rc, p), b) {
            prev.push((((n - 1) as usize), hit_of(ray_world(rc, p), b)))
        } else {
            prev
        }
    }
}

/// Runs every ray query against the static bodies: clears the previous hit
/// list, culls by the ray's broad bound, and appends a hit record for each
/// box the exact slab test hits, in iteration order.
pub fn raycasts(
    rays: &mut Vec<Raycast>,
    ray_pos: &Vec<Vec2>,
    statics: &Vec<StaticBody>,
    sta_pos: &Vec<Vec2>,
)
    requires
        ray_pos@.len() == old(rays)@.len(),
        sta_pos@.len() == statics@.len(),
        statics_ok(statics@),
        positions_ok(sta_pos@),
        positions_ok(ray_pos@),
        forall|i: int|
            0 <= i < old(rays)@.len() ==> {
                &&& (#[trigger] old(rays)@[i]).direction.abs_le(MAX_COORD as int)
                &&& old(rays)@[i].offset.abs_le(MAX_COORD as int)
            },
    ensures
        final(rays)@.len() == old(rays)@.len(),
        forall|i: int|
            0 <= i < old(rays)@.len() ==> {
                &&& (#[trigger] final(rays)@[i]).direction == old(rays)@[i].direction
                &&& final(rays)@[i].offset == old(rays)@[i].offset
                &&& final(rays)@[i].hits@ == ray_hit_list(
                    old(rays)@[i],
                    ray_pos@[i],
                    statics@,
                    sta_pos@,
                    statics@.len() as int,
                )
            },
{
    let mut i: usize = 0;
    while i < rays.len()
        invariant
            ray_pos@.len() == old(rays)@.len(),
            sta_pos@.len() == statics@.len(),
            statics_ok(statics@),
            positions_ok(sta_pos@),
            positions_ok(ray_pos@),
            forall|q: int|
                0 <= q < old(rays)@.len() ==> {
                    &&& (#[trigger] old(rays)@[q]).direction.abs_le(MAX_COORD as int)
                    &&& old(rays)@[q].offset.abs_le(MAX_COORD as int)
                },
            0 <= i <= old(rays)@.len(),
            rays@.len() == old(rays)@.len(),
            forall|q: int| i <= q < old(rays)@.len() ==> (#[trigger] rays@[q]) == old(rays)@[q],
            forall|q: int|
                0 <= q < i ==> {
                    &&& (#[trigger] rays@[q]).direction == old(rays)@[q].direction
                    &&& rays@[q].offset == old(rays)@[q].offset
                    &&& rays@[q].hits@ == ray_hit_list(
                        old(rays)@[q],
                        ray_pos@[q],
                        statics@,
                        sta_pos@,
                        statics@.len() as int,
                    )
                },
        decreases old(rays)@.len() - i,
    {
        let world = Ray::from_ray(&rays[i], ray_pos[i]);
        let a_box = Aabb::from_ray(&rays[i], ray_pos[i]);
        proof {
            assert(world == ray_world(old(rays)@[i as int], ray_pos@[i as int]));
            assert(a_box == ray_broad_box(old(rays)@[i as int], ray_pos@[i as int]));
        }
        rays[i].hits.clear();

        let mut j: usize = 0;
        while j < statics.len()
            invariant
                sta_pos@.len() == statics@.len(),
                statics_ok(statics@),
                positions_ok(sta_pos@),
                0 <= i < rays@.len(),
                rays@.len() == old(rays)@.len(),
                0 <= j <= statics@.len(),
                world == ray_world(old(rays)@[i as int], ray_pos@[i as int]),
                a_box == ray_broad_box(old(rays)@[i as int], ray_pos@[i as int]),
                world.direction.abs_le(MAX_COORD as int),
                world.position.abs_le(2 * MAX_COORD as int),
                a_box.abs_le(4 * MAX_COORD as int),
                rays@[i as int].direction == old(rays)@[i as int].direction,
                rays@[i as int].offset == old(rays)@[i as int].offset,
                rays@[i as int].hits@ == ray_hit_list(
                    old(rays)@[i as int],
                    ray_pos@[i as int],
                    statics@,
                    sta_pos@,
                    j as int,
                ),
                forall|q: int| i < q < old(rays)@.len() ==> (#[trigger] rays@[q]) == old(rays)@[q],
                forall|q: int|
                    0 <= q < i ==> {
                        &&& (#[trigger] rays@[q]).direction == old(rays)@[q].direction
                        &&& rays@[q].offset == old(rays)@[q].offset
                        &&& rays@[q].hits@ == ray_hit_list(
                            old(rays)@[q],
                            ray_pos@[q],
                            statics@,
                            sta_pos@,
                            statics@.len() as int,
                        )
                    },
            decreases statics@.len() - j,
        {
            let b_box = Aabb::from_rectangle(statics[j].shape, sta_pos[j]);
            proof {
                assert(b_box == box_of(statics@[j as int].shape, sta_pos@[j as int]));
            }
            if a_box.is_overlapping(b_box) {
                match world.intersect_aabb(b_box) {
                    Some(hit) => {
                        rays[i].hits.push((j, hit));
                    },
                    None => {},
                }
            }
            j = j + 1;
        }
        i = i + 1;
    }
}

} // verus!
