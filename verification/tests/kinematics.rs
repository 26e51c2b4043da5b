use platformer_physics::geom::Vec2i;
use platformer_physics::velocity::{
    apply_drag, derive_velocity, drag_decay, step_displacement, update_gravity,
};
use platformer_physics::world::{
    Body, Collider, ColliderKind, Gravity, Velocity, World,
};
use platformer_physics::flags::CollisionFlags;

fn moving_body(vx: i64, vy: i64, drag_x: i64, drag_y: i64) -> Body {
    Body {
        position: Vec2i::new(0, 0),
        collider: Collider {
            size: Vec2i::new(96, 96),
            kind: ColliderKind::Movable(5),
            flags: CollisionFlags::empty(),
        },
        velocity: Some(Velocity {
            linvel: Vec2i::new(vx, vy),
            drag: Vec2i::new(drag_x, drag_y),
        }),
        gravity: Some(Gravity(100)),
    }
}

#[test]
fn step_truncates_toward_zero() {
    assert_eq!(step_displacement(1000, 100), 100);
    assert_eq!(step_displacement(-1000, 100), -100);
    assert_eq!(step_displacement(999, 1), 0);
    assert_eq!(step_displacement(-999, 1), 0);
    assert_eq!(step_displacement(1500, 500), 750);
    assert_eq!(step_displacement(123, 0), 0);
}

#[test]
fn derived_velocity_explains_the_displacement() {
    assert_eq!(derive_velocity(10, 100), 100);
    assert_eq!(derive_velocity(-10, 100), -100);
    assert_eq!(derive_velocity(1, 3), 333);
    assert_eq!(derive_velocity(0, 16), 0);
}

#[test]
fn step_of_derived_velocity_is_within_one_unit() {
    for d in [-1000i64, -37, -1, 0, 1, 7, 999, 12345] {
        for dt in [1u32, 16, 100, 999, 1000] {
            let v = derive_velocity(d, dt);
            let back = step_displacement(v, dt);
            assert!((back - d).abs() <= 1, "d={} dt={} back={}", d, dt, back);
        }
    }
}

#[test]
fn drag_decays_by_the_coefficient_and_delta() {
    // One full second at 0.95/s takes 95% away.
    assert_eq!(drag_decay(1000, 950, 1000), 50);
    assert_eq!(drag_decay(-1000, 950, 1000), -50);
    // No time, no decay.
    assert_eq!(drag_decay(1000, 950, 0), 1000);
    // No drag, no decay.
    assert_eq!(drag_decay(1000, 0, 1000), 1000);
}

#[test]
fn gravity_drops_vertical_velocity_only() {
    let mut world = World::new();
    let id = world.add(moving_body(7, 0, 0, 0));
    update_gravity(&mut world);
    let b = world.get(id);
    let v = b.velocity.unwrap();
    assert_eq!(v.linvel.x, 7);
    assert_eq!(v.linvel.y, -100);
    assert_eq!(b.position, Vec2i::new(0, 0));
}

#[test]
fn gravity_skips_bodies_without_gravity() {
    let mut world = World::new();
    let mut b = moving_body(0, 50, 0, 0);
    b.gravity = None;
    let id = world.add(b);
    update_gravity(&mut world);
    assert_eq!(world.get(id).velocity.unwrap().linvel.y, 50);
}

#[test]
fn apply_drag_damps_both_axes() {
    let mut world = World::new();
    let id = world.add(moving_body(1000, -2000, 950, 500));
    apply_drag(&mut world, 1000);
    let v = world.get(id).velocity.unwrap();
    assert_eq!(v.linvel.x, 50);
    assert_eq!(v.linvel.y, -1000);
}

#[test]
fn velocity_default_is_at_rest_with_stock_damping() {
    let v = Velocity::default();
    assert_eq!(v.linvel, Vec2i::new(0, 0));
    assert_eq!(v.drag, Vec2i::new(950, 950));
}

#[test]
fn gravity_default_is_one_hundred() {
    assert_eq!(Gravity::default(), Gravity(100));
}

#[test]
fn collider_kind_default_is_immovable() {
    assert_eq!(ColliderKind::default(), ColliderKind::Movable(u64::MAX));
}

#[test]
fn collider_weights_by_kind() {
    assert_eq!(ColliderKind::Movable(5).weight(), 5);
    assert_eq!(ColliderKind::Death.weight(), u64::MAX);
    assert_eq!(ColliderKind::Sensor.weight(), u64::MAX - 1);
    assert_eq!(ColliderKind::Win.weight(), u64::MAX - 1);
    assert_eq!(ColliderKind::Inert.weight(), 0);
}

#[test]
fn world_add_and_get() {
    let mut world = World::new();
    assert_eq!(world.len(), 0);
    let a = world.add(moving_body(1, 2, 0, 0));
    let b = world.add(moving_body(3, 4, 0, 0));
    assert_eq!((a, b), (0, 1));
    assert_eq!(world.len(), 2);
    assert_eq!(world.get(1).velocity.unwrap().linvel, Vec2i::new(3, 4));
}
