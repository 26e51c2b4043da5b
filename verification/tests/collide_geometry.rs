use platformer_physics::collide::{collide, halve, push_force, Collision};
use platformer_physics::geom::{Axis, Side, Vec2i};

fn v(x: i64, y: i64) -> Vec2i {
    Vec2i::new(x, y)
}

#[test]
fn disjoint_boxes_do_not_collide() {
    assert_eq!(collide(v(0, 0), v(10, 10), v(20, 0), v(10, 10)), None);
    // Touching edge to edge is not an overlap.
    assert_eq!(collide(v(0, 0), v(10, 10), v(10, 0), v(10, 10)), None);
}

#[test]
fn shallow_side_left() {
    // The first box sticks out past the second box's left edge.
    let r = collide(v(0, 0), v(10, 10), v(8, 0), v(10, 10));
    assert_eq!(r, Some(Collision::Left));
}

#[test]
fn shallow_side_right() {
    let r = collide(v(8, 0), v(10, 10), v(0, 0), v(10, 10));
    assert_eq!(r, Some(Collision::Right));
}

#[test]
fn shallow_side_top_and_bottom() {
    // First box above the second: it hits the second's top.
    assert_eq!(collide(v(0, 8), v(10, 10), v(0, 0), v(10, 10)), Some(Collision::Top));
    assert_eq!(collide(v(0, -8), v(10, 10), v(0, 0), v(10, 10)), Some(Collision::Bottom));
}

#[test]
fn equal_depths_prefer_the_horizontal_side() {
    // Both axes penetrate equally deep; the horizontal side wins the tie.
    let r = collide(v(0, 0), v(10, 10), v(6, 6), v(10, 10));
    assert_eq!(r, Some(Collision::Left));
}

#[test]
fn containment_is_inside() {
    let r = collide(v(0, 0), v(4, 4), v(0, 0), v(20, 20));
    assert_eq!(r, Some(Collision::Inside));
}

#[test]
fn collision_sides_and_axes() {
    assert_eq!(Collision::Left.side(), Side::Left);
    assert_eq!(Collision::Top.side(), Side::Top);
    // Containment counts as a top contact, pushed out upward.
    assert_eq!(Collision::Inside.side(), Side::Top);
    assert!(Collision::Inside.relevant_to(Axis::X));
    assert!(Collision::Inside.relevant_to(Axis::Y));
    assert!(Collision::Left.relevant_to(Axis::X));
    assert!(!Collision::Left.relevant_to(Axis::Y));
    assert!(Collision::Bottom.relevant_to(Axis::Y));
    assert!(!Collision::Bottom.relevant_to(Axis::X));
}

#[test]
fn push_separates_a_body_resting_into_the_floor() {
    // Player 60x96 at y=50, floor 960x96 at the origin: 46 units of
    // vertical penetration, pushed out upward.
    let player = v(0, 50);
    let psize = v(60, 96);
    let floor = v(0, 0);
    let fsize = v(960, 96);
    assert_eq!(collide(floor, fsize, player, psize), Some(Collision::Bottom));
    let push = push_force(Collision::Bottom, player, psize, floor, fsize);
    assert_eq!(push, v(0, 46));
    // After the push the boxes no longer overlap.
    let moved = v(player.x + push.x, player.y + push.y);
    assert_eq!(collide(floor, fsize, moved, psize), None);
}

#[test]
fn push_points_out_of_the_overlap_horizontally() {
    let a = v(10, 0);
    let asize = v(96, 96);
    let b = v(90, 0);
    let bsize = v(96, 96);
    assert_eq!(collide(b, bsize, a, asize), Some(Collision::Right));
    let push = push_force(Collision::Right, a, asize, b, bsize);
    assert_eq!(push, v(-16, 0));
    let moved = v(a.x + push.x, a.y + push.y);
    assert_eq!(collide(b, bsize, moved, asize), None);
}

#[test]
fn push_rounds_to_the_nearest_unit() {
    // Odd combined extent: the exact separation is 15.5, rounded to 16.
    let a = v(0, 0);
    let asize = v(11, 50);
    let b = v(5, 0);
    let bsize = v(10, 50);
    let push = push_force(Collision::Left, a, asize, b, bsize);
    assert_eq!(push, v(16, 0));
}

#[test]
fn halve_rounds_half_away_from_zero() {
    assert_eq!(halve(9), 5);
    assert_eq!(halve(8), 4);
    assert_eq!(halve(-9), -5);
    assert_eq!(halve(-8), -4);
    assert_eq!(halve(1), 1);
    assert_eq!(halve(-1), -1);
    assert_eq!(halve(0), 0);
}
