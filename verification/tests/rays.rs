use aabb_physics::aabb::Aabb;
use aabb_physics::bodies::StaticBody;
use aabb_physics::collision::raycasts;
use aabb_physics::frac::Frac;
use aabb_physics::ray::Ray;
use aabb_physics::raycast::Raycast;
use aabb_physics::rectangle::Rectangle;
use aabb_physics::vec2::Vec2;

#[test]
fn ray_test_time() {
    let a = Aabb::new(Vec2::splat(2), Vec2::new(-3, 0));
    let ray = Ray::new(Vec2::new(-2, 0), Vec2::zero());

    let hit = ray.intersect_aabb(a).unwrap();

    assert_eq!(hit.time, Frac::new(1, 2));
}

#[test]
fn ray_test_normal() {
    let a = Aabb::new(Vec2::splat(2), Vec2::new(-3, 0));
    let ray = Ray::new(Vec2::new(-2, 0), Vec2::zero());

    let hit = ray.intersect_aabb(a).unwrap();
    assert_eq!(hit.normal, Vec2::new(1, 0));
}

#[test]
fn raycast_test_time() {
    let a = Aabb::new(Vec2::splat(2), Vec2::new(-3, 0));
    let ray = Ray::new(Vec2::new(-2, 0), Vec2::zero());

    let hit = ray.intersect_aabb(a).unwrap();

    assert_eq!(hit.time, Frac::new(1, 2));
}

#[test]
fn raycast_test_normal() {
    let a = Aabb::new(Vec2::splat(2), Vec2::new(-3, 0));
    let ray = Ray::new(Vec2::new(-2, 0), Vec2::zero());

    let hit = ray.intersect_aabb(a).unwrap();
    assert_eq!(hit.normal, Vec2::new(1, 0));
}

#[test]
fn ray_unit_distance_boundary_exclusive() {
    // A box whose near face sits at exactly the full ray length is no hit:
    // the time-1 boundary is exclusive.
    let at_boundary = Aabb::new(Vec2::splat(5), Vec2::new(15, 0));
    let ray = Ray::new(Vec2::new(10, 0), Vec2::zero());
    assert!(ray.intersect_aabb(at_boundary).is_none());

    // One unit closer, the hit appears, with time just inside the bound.
    let just_inside = Aabb::new(Vec2::splat(5), Vec2::new(14, 0));
    let hit = ray.intersect_aabb(just_inside).unwrap();
    assert_eq!(hit.time, Frac::new(9, 10));
}

#[test]
fn zero_direction_ray_hits_nothing() {
    let around_origin = Aabb::new(Vec2::splat(5), Vec2::zero());
    let ray = Ray::new(Vec2::zero(), Vec2::zero());
    assert!(ray.intersect_aabb(around_origin).is_none());
}

#[test]
fn raycast_builders() {
    let ray = Raycast::new()
        .with_direction(Vec2::new(0, -5))
        .with_offset(Vec2::new(0, -1));
    assert_eq!(ray.direction, Vec2::new(0, -5));
    assert_eq!(ray.offset, Vec2::new(0, -1));
    assert!(!ray.is_colliding());
    assert_eq!(ray.get_hits().len(), 0);
}

#[test]
fn raycast_offset_shifts_origin() {
    // The query's offset moves the ray's world origin: anchored at (2, 0)
    // with offset (-2, 0) it casts from the origin, as in the plain test.
    let mut rays = vec![
        Raycast::new()
            .with_direction(Vec2::new(-2, 0))
            .with_offset(Vec2::new(-2, 0)),
    ];
    let ray_pos = vec![Vec2::new(2, 0)];
    let statics = vec![StaticBody::new(Rectangle::new().with_size(Vec2::new(4, 4)))];
    let sta_pos = vec![Vec2::new(-3, 0)];

    raycasts(&mut rays, &ray_pos, &statics, &sta_pos);
    let hits = rays[0].get_hits();
    assert_eq!(hits.len(), 1);
    assert_eq!(hits[0].1.time, Frac::new(1, 2));
}

#[test]
fn raycast_query_pipeline() {
    let mut rays = vec![Raycast::new().with_direction(Vec2::new(-2, 0))];
    let ray_pos = vec![Vec2::zero()];
    let statics = vec![StaticBody::new(Rectangle::new().with_size(Vec2::new(4, 4)))];
    let sta_pos = vec![Vec2::new(-3, 0)];

    raycasts(&mut rays, &ray_pos, &statics, &sta_pos);

    assert!(rays[0].is_colliding());
    let hits = rays[0].get_hits();
    assert_eq!(hits.len(), 1);
    assert_eq!(hits[0].0, 0);
    assert_eq!(hits[0].1.time, Frac::new(1, 2));
    assert_eq!(hits[0].1.normal, Vec2::new(1, 0));

    // the next step clears and rebuilds the list; with no obstacles left it
    // comes back empty
    let no_statics: Vec<StaticBody> = Vec::new();
    let no_pos: Vec<Vec2> = Vec::new();
    raycasts(&mut rays, &ray_pos, &no_statics, &no_pos);
    assert!(!rays[0].is_colliding());
    assert_eq!(rays[0].get_hits().len(), 0);
}
