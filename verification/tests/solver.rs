use aabb_physics::aabb::Aabb;
use aabb_physics::bodies::{KinematicBody, StaticBody};
use aabb_physics::collision::{broadphase, clear_contacts, move_entities, narrowphase, solve};
use aabb_physics::frac::Frac;
use aabb_physics::rectangle::Rectangle;
use aabb_physics::utils::slide_motion;
use aabb_physics::vec2::Vec2;

fn square(half: i64) -> Rectangle {
    Rectangle::new().with_size(Vec2::splat(2 * half))
}

#[test]
fn sweep_zero_motion_no_hit() {
    // A box swept with zero motion against any other box returns no hit,
    // even one it already overlaps.
    let a = Aabb::new(Vec2::splat(2), Vec2::zero());
    let b = Aabb::new(Vec2::splat(2), Vec2::new(1, 0));
    assert!(a.sweep_test(b, Vec2::zero()).is_none());

    let far = Aabb::new(Vec2::splat(2), Vec2::new(100, 0));
    assert!(a.sweep_test(far, Vec2::zero()).is_none());
}

#[test]
fn sweep_hits_left_face() {
    let a = Aabb::new(Vec2::splat(2), Vec2::new(-3, 0));
    let b = Aabb::new(Vec2::splat(2), Vec2::new(3, 0));

    let hit = a.sweep_test(b, Vec2::new(4, 0)).unwrap();
    assert_eq!(hit.time, Frac::new(1, 2));
    assert_eq!(hit.normal, Vec2::new(-1, 0));
}

#[test]
fn slide_motion_values() {
    // A head-on slide scales the motion on the normal's axis down to the
    // time of impact, rounding towards zero; the other axis is untouched.
    let mut m = Vec2::new(5, 0);
    slide_motion(&mut m, Vec2::new(-1, 0), Frac::new(1, 2));
    assert_eq!(m, Vec2::new(2, 0));

    let mut m = Vec2::new(4, 4);
    slide_motion(&mut m, Vec2::new(0, -1), Frac::new(2, 4));
    assert_eq!(m, Vec2::new(4, 2));

    // a zero normal leaves the motion unchanged
    let mut m = Vec2::new(7, -3);
    slide_motion(&mut m, Vec2::zero(), Frac::new(1, 3));
    assert_eq!(m, Vec2::new(7, -3));
}

#[test]
fn broadphase_culls() {
    let mut body = KinematicBody::new(square(1));
    body.motion = Vec2::new(2, 0);
    let kinematics = vec![body];
    let kin_pos = vec![Vec2::zero()];
    let statics = vec![
        StaticBody::new(square(1)),
        StaticBody::new(square(1)),
    ];
    let sta_pos = vec![Vec2::new(3, 0), Vec2::new(10, 0)];

    let evs = broadphase(&kinematics, &kin_pos, &statics, &sta_pos);
    assert_eq!(evs.len(), 1);
    assert_eq!(evs[0].entity, 0);
    assert_eq!(evs[0].statics, vec![0]);
}

#[test]
fn narrowphase_sorts_by_time() {
    // The farther obstacle is listed first; narrow phase orders the groups
    // by ascending time of impact.
    let mut body = KinematicBody::new(square(1));
    body.motion = Vec2::new(8, 0);
    let mut kinematics = vec![body];
    let kin_pos = vec![Vec2::zero()];
    let statics = vec![
        StaticBody::new(square(1)),
        StaticBody::new(square(1)),
    ];
    let sta_pos = vec![Vec2::new(6, 0), Vec2::new(3, 0)];

    let broad = broadphase(&kinematics, &kin_pos, &statics, &sta_pos);
    let narrow = narrowphase(&kinematics, &kin_pos, &statics, &sta_pos, &broad);
    assert_eq!(narrow.len(), 1);
    assert_eq!(narrow[0].statics.len(), 2);
    assert_eq!(narrow[0].statics[0].time, Frac::new(1, 8));
    assert_eq!(narrow[0].statics[0].entities, vec![1]);
    assert_eq!(narrow[0].statics[1].time, Frac::new(1, 2));
    assert_eq!(narrow[0].statics[1].entities, vec![0]);

    // Solving stops the body flush against the nearer obstacle; the
    // farther one is already resolved away and adds no contact.
    let moves = solve(&mut kinematics, &kin_pos, &statics, &sta_pos, &narrow);
    assert_eq!(moves.len(), 1);
    assert_eq!(moves[0].position, Vec2::new(1, 0));
    let contacts = kinematics[0].get_contacts();
    assert_eq!(contacts.len(), 1);
    assert_eq!(contacts[0].entity(), 1);
    assert_eq!(contacts[0].normal(), Vec2::new(-1, 0));
}

#[test]
fn floor_seam_groups_together() {
    // Falling straight onto the seam of two floor tiles: both are hit at
    // the exact same time, so they form one group and the corner heuristic
    // does not misfire on either half.
    let mut body = KinematicBody::new(square(1));
    body.motion = Vec2::new(0, -4);
    let mut kinematics = vec![body];
    let kin_pos = vec![Vec2::new(0, 5)];
    let statics = vec![
        StaticBody::new(square(1)),
        StaticBody::new(square(1)),
    ];
    let sta_pos = vec![Vec2::new(-1, 2), Vec2::new(1, 2)];

    let broad = broadphase(&kinematics, &kin_pos, &statics, &sta_pos);
    let narrow = narrowphase(&kinematics, &kin_pos, &statics, &sta_pos, &broad);
    assert_eq!(narrow[0].statics.len(), 1);
    assert_eq!(narrow[0].statics[0].entities, vec![0, 1]);

    let moves = solve(&mut kinematics, &kin_pos, &statics, &sta_pos, &narrow);
    // the body lands flush on the tiles' top face
    assert_eq!(moves.len(), 1);
    assert_eq!(moves[0].position, Vec2::new(0, 4));
    let contacts = kinematics[0].get_contacts();
    assert_eq!(contacts.len(), 1);
    assert_eq!(contacts[0].normal(), Vec2::new(0, 1));
}

#[test]
fn diagonal_corner_solve() {
    // A body moving exactly into a box corner gets a zero normal from the
    // sweep; the widened re-test resolves it to a face, and the body comes
    // to rest flush against that face instead of passing through.
    let mut body = KinematicBody::new(square(1));
    body.motion = Vec2::new(4, 4);
    let mut kinematics = vec![body];
    let kin_pos = vec![Vec2::zero()];
    let statics = vec![StaticBody::new(square(1))];
    let sta_pos = vec![Vec2::new(4, 4)];

    let broad = broadphase(&kinematics, &kin_pos, &statics, &sta_pos);
    let narrow = narrowphase(&kinematics, &kin_pos, &statics, &sta_pos, &broad);
    assert_eq!(narrow[0].statics.len(), 1);
    assert_eq!(narrow[0].statics[0].entities, vec![0]);

    let moves = solve(&mut kinematics, &kin_pos, &statics, &sta_pos, &narrow);
    assert_eq!(moves.len(), 1);
    // the widened re-test yields the horizontal face below the obstacle:
    // vertical motion is cut at the contact, horizontal motion is kept
    assert_eq!(moves[0].position, Vec2::new(4, 2));
    let contacts = kinematics[0].get_contacts();
    assert_eq!(contacts.len(), 1);
    assert_eq!(contacts[0].normal(), Vec2::new(0, -1));

    // flush: the body's top edge meets the obstacle's bottom edge
    let mut positions = kin_pos.clone();
    move_entities(&mut positions, &moves);
    assert_eq!(positions[0], Vec2::new(4, 2));
}

#[test]
fn solver_zero_motion_idempotent() {
    // Running the solver on an already-resolved position with zero motion
    // changes nothing and records no contacts.
    let mut body = KinematicBody::new(square(1));
    body.motion = Vec2::new(0, -4);
    let mut kinematics = vec![body];
    let mut positions = vec![Vec2::new(0, 5)];
    let statics = vec![
        StaticBody::new(square(1)),
        StaticBody::new(square(1)),
    ];
    let sta_pos = vec![Vec2::new(-1, 2), Vec2::new(1, 2)];

    // first step: fall and land flush
    let broad = broadphase(&kinematics, &positions, &statics, &sta_pos);
    let narrow = narrowphase(&kinematics, &positions, &statics, &sta_pos, &broad);
    let moves = solve(&mut kinematics, &positions, &statics, &sta_pos, &narrow);
    move_entities(&mut positions, &moves);
    assert_eq!(positions[0], Vec2::new(0, 4));

    // second step: motion already consumed; nothing may change
    kinematics[0].motion = Vec2::zero();
    clear_contacts(&mut kinematics);
    let broad = broadphase(&kinematics, &positions, &statics, &sta_pos);
    let narrow = narrowphase(&kinematics, &positions, &statics, &sta_pos, &broad);
    let moves = solve(&mut kinematics, &positions, &statics, &sta_pos, &narrow);
    move_entities(&mut positions, &moves);

    assert_eq!(positions[0], Vec2::new(0, 4));
    assert_eq!(kinematics[0].get_contacts().len(), 0);
}

#[test]
fn free_motion_fully_applied() {
    // With nothing in the way the full intended displacement is committed.
    let mut body = KinematicBody::new(square(1));
    body.motion = Vec2::new(-7, 3);
    let mut kinematics = vec![body];
    let mut positions = vec![Vec2::new(-2, -2)];
    let statics = vec![StaticBody::new(square(1))];
    let sta_pos = vec![Vec2::new(50, 50)];

    let broad = broadphase(&kinematics, &positions, &statics, &sta_pos);
    assert_eq!(broad[0].statics.len(), 0);
    let narrow = narrowphase(&kinematics, &positions, &statics, &sta_pos, &broad);
    let moves = solve(&mut kinematics, &positions, &statics, &sta_pos, &narrow);
    move_entities(&mut positions, &moves);

    assert_eq!(positions[0], Vec2::new(-9, 1));
    assert_eq!(kinematics[0].get_contacts().len(), 0);
}

#[test]
fn missing_entity_is_skipped() {
    // An event that names an entity no longer present is silently skipped.
    let statics = vec![StaticBody::new(square(1))];
    let sta_pos = vec![Vec2::new(3, 0)];
    let mut body = KinematicBody::new(square(1));
    body.motion = Vec2::new(2, 0);
    let kinematics_full = vec![body];
    let kin_pos = vec![Vec2::zero()];

    let broad = broadphase(&kinematics_full, &kin_pos, &statics, &sta_pos);
    // the body vanishes between phases
    let mut kinematics_empty: Vec<KinematicBody> = Vec::new();
    let narrow = narrowphase(&kinematics_empty, &kin_pos, &statics, &sta_pos, &broad);
    assert_eq!(narrow.len(), 0);
    let moves = solve(&mut kinematics_empty, &kin_pos, &statics, &sta_pos, &narrow);
    assert_eq!(moves.len(), 0);
}
