use aabb_physics::aabb::Aabb;
use aabb_physics::frac::Frac;
use aabb_physics::rectangle::Rectangle;
use aabb_physics::vec2::Vec2;

#[test]
fn test_overlap() {
    let a = Aabb::new(Vec2::splat(3), Vec2::new(1, 2));
    let b = Aabb::new(Vec2::new(2, 4), Vec2::zero());

    assert!(a.collide_with(b));
    assert_eq!(a.get_overlap(b), Vec2::new(4, 0));
}

#[test]
fn aabb_test_overlap() {
    let a = Aabb::new(Vec2::splat(3), Vec2::new(1, 2));
    let b = Aabb::new(Vec2::new(2, 4), Vec2::zero());

    assert!(a.is_overlapping(b));
    assert_eq!(a.get_overlap(b), Vec2::new(4, 0));
}

#[test]
fn test_expand() {
    let a = Aabb::new(Vec2::splat(3), Vec2::zero());
    let b = a.expand(Vec2::splat(2));

    assert_eq!(a.extents, Vec2::splat(3));
    assert_eq!(b.extents, Vec2::splat(5));
}

#[test]
fn test_hit() {
    let a = Aabb::new(Vec2::splat(2), Vec2::new(-3, 0));
    let b = Aabb::new(Vec2::splat(2), Vec2::new(3, 0));

    let hit_info = a.get_hit_info(b, Vec2::new(4, 0));

    assert_eq!(hit_info.0, Frac::new(1, 2));
    assert_eq!(hit_info.1, Vec2::new(-1, 0));
}

#[test]
fn aabb_test_hit() {
    let a = Aabb::new(Vec2::splat(2), Vec2::new(-3, 0));
    let b = Aabb::new(Vec2::splat(2), Vec2::new(3, 0));

    let hit_info = a.get_hit_info(b, Vec2::new(4, 0));

    assert_eq!(hit_info.0, Frac::new(1, 2));
    assert_eq!(hit_info.1, Vec2::new(-1, 0));
}

#[test]
fn test_size() {
    let a = Rectangle::new().with_size(Vec2::new(2, 3));
    assert_eq!(a.size(), Vec2::new(2, 3));

    let b = Rectangle::new().with_size(Vec2::new(-4, -6));
    assert_eq!(b.size(), Vec2::new(4, 6));
}

#[test]
fn touching_boxes_do_not_overlap() {
    // Strict overlap: edge-to-edge contact is not an overlap.
    let a = Aabb::new(Vec2::splat(1), Vec2::zero());
    let b = Aabb::new(Vec2::splat(1), Vec2::new(2, 0));
    assert!(!a.is_overlapping(b));
    assert!(!b.is_overlapping(a));

    let c = Aabb::new(Vec2::splat(1), Vec2::new(1, 0));
    assert!(a.is_overlapping(c));
    assert!(c.is_overlapping(a));
}

#[test]
fn minkowski_values() {
    let a = Aabb::new(Vec2::new(1, 2), Vec2::new(10, 20));
    let b = Aabb::new(Vec2::new(3, 4), Vec2::new(4, 5));
    let m = a.minkowski_diff(b);
    assert_eq!(m.extents, Vec2::new(4, 6));
    assert_eq!(m.position, Vec2::new(6, 15));
}

#[test]
fn broad_box_values() {
    let a = Aabb::new(Vec2::splat(3), Vec2::zero());
    let b = a.get_broad(Vec2::new(5, -2));
    // extents grow by half the absolute motion rounded up, the centre
    // shifts by half the motion rounded towards zero
    assert_eq!(b.extents, Vec2::new(6, 4));
    assert_eq!(b.position, Vec2::new(2, -1));
}

#[test]
fn movable_builder() {
    let m = aabb_physics::bodies::Movable::new();
    assert_eq!(m.motion, Vec2::zero());
    let m = m.with_motion(Vec2::new(3, -4));
    assert_eq!(m.motion, Vec2::new(3, -4));
}

#[test]
fn from_rectangle_halves_size() {
    let shape = Rectangle::new().with_size(Vec2::new(4, 6));
    let a = Aabb::from_rectangle(shape, Vec2::new(7, 8));
    assert_eq!(a.extents, Vec2::new(2, 3));
    assert_eq!(a.position, Vec2::new(7, 8));
}
